//! The rows of the native files' TSV blocks: one struct per block, its
//! columns, its cells, and reading a row back from its cells. Lengths are
//! whole nanometres; angles, ratios and millimetre sizes are written as
//! decimal numerals of millionths.

use vstd::prelude::*;

use crate::cell_laws::{lemma_decimal_cell_round_trip, lemma_int_cell_round_trip, lemma_u32_cell_round_trip};
use crate::kicad_parse::{uuid_parse, uuid_parse_result};
use crate::kicad_pcb::{uuid_hyphenated, uuid_text};
use crate::kicad_write::{fixed_text, fixed_text_spec};
use crate::numeral::{numeral_millionths, parse_millionths};
use crate::snx::{
    block_lines, decode_cell_spec, digit_value, int_error_message, is_digit, parse_block_result, parse_block_spec,
    parse_i64, parse_i64_spec, parse_tsv_block, rows_from, rows_view, split_row_spec, strings_view, strip_newlines,
    strs_view, write_block_spec, write_tsv_block, FormatError, IntParse, TsvParse,
};
use crate::coord::Vec2;
use crate::pcb::{DrillDef, Footprint, Pad, PadNet, PcbBoard, Segment, Via};
use crate::schematic::{Junction, Label, SchematicSheet, Symbol, Wire};
use crate::snx::{
    halign_str, halign_text, join_commas, join_layers, label_kind_str, label_kind_text, pad_shape_str, pad_shape_text,
    pad_type_str, pad_type_text, parse_halign, parse_halign_spec, parse_label_kind, parse_label_kind_spec,
    parse_pad_shape, parse_pad_shape_spec, parse_pad_type, parse_pad_type_spec, parse_valign, parse_valign_spec,
    parse_via_type, parse_via_type_spec, split_layers, split_layers_spec, valign_str, valign_text, via_type_str,
    via_type_text,
};
use crate::snx_pcb::{FootprintExtras, PadExtras};
use crate::kicad_symlib::{first_index_of, lemma_first_index_of};
use crate::tsv_laws::{bare_token, header_columns, lemma_tsv_round_trip, round_trip_rows};
use crate::text::{chars_of, str_eq, decimal, i64_to_string, signed_decimal, trim_spec, u64_to_string};

verus! {

broadcast use vstd::std_specs::vec::group_vec_axioms;

// ---------------------------------------------------------------------------
// Cells
// ---------------------------------------------------------------------------

/// The error of a field that does not read: its block, row, field and
/// the reason.
pub open spec fn field_error(e: FormatError, block: Seq<char>, row: usize, field: Seq<char>, message: Seq<char>) -> bool {
    e matches FormatError::TsvFieldParse { block: b, row: n, field: f, message: m } && b@ == block && n == row && f@
        == field && m@ == message
}

pub open spec fn err_of<T>(o: Result<T, Seq<char>>) -> Option<Seq<char>> {
    match o {
        Ok(_) => None,
        Err(m) => Some(m),
    }
}

/// The first failure so far, or field `field` failing with `err`.
pub open spec fn or_field(
    prev: Option<(Seq<char>, Seq<char>)>,
    field: Seq<char>,
    err: Option<Seq<char>>,
) -> Option<(Seq<char>, Seq<char>)> {
    match prev {
        Some(p) => Some(p),
        None => match err {
            Some(m) => Some((field, m)),
            None => None,
        },
    }
}

/// A UUID cell: empty is the nil UUID.
pub open spec fn uuid_cell_outcome(s: Seq<char>) -> Result<u128, Seq<char>> {
    if s.len() == 0 {
        Ok(0)
    } else {
        uuid_parse_result(s)
    }
}

/// An integer cell, as `str::parse::<i64>` reads it.
pub open spec fn int_cell_outcome(s: Seq<char>) -> Result<i64, Seq<char>> {
    match parse_i64_spec(s) {
        IntParse::Value(v) => Ok(v as i64),
        other => Err(int_error_message(other)),
    }
}

/// Digits from `i` on, accumulated onto `acc`, for a `u32`.
pub open spec fn u32_digits_from(s: Seq<char>, i: int, acc: int) -> IntParse
    decreases s.len() - i,
{
    if i < 0 || i >= s.len() {
        IntParse::Value(acc)
    } else if !is_digit(s[i]) {
        IntParse::InvalidDigit
    } else {
        let next = acc * 10 + digit_value(s[i]);
        if next > u32::MAX {
            IntParse::PosOverflow
        } else {
            u32_digits_from(s, i + 1, next)
        }
    }
}

/// A decimal `u32` with an optional leading `+`, as `str::parse::<u32>`
/// reads it.
pub open spec fn parse_u32_kind(s: Seq<char>) -> IntParse {
    if s.len() == 0 {
        IntParse::Empty
    } else if s.len() == 1 && (s[0] == '+' || s[0] == '-') {
        IntParse::InvalidDigit
    } else if s[0] == '+' {
        u32_digits_from(s, 1, 0)
    } else {
        u32_digits_from(s, 0, 0)
    }
}

pub open spec fn u32_cell_outcome(s: Seq<char>) -> Result<u32, Seq<char>> {
    match parse_u32_kind(s) {
        IntParse::Value(v) => Ok(v as u32),
        other => Err(int_error_message(other)),
    }
}

/// A decimal cell: empty is zero, otherwise a numeral read in millionths.
pub open spec fn decimal_cell_outcome(s: Seq<char>) -> Result<i64, Seq<char>> {
    if s.len() == 0 {
        Ok(0)
    } else {
        match numeral_millionths(s) {
            Some(v) => Ok(v as i64),
            None => Err("invalid float literal"@),
        }
    }
}

fn field_parse_error(block: &str, row: usize, field: &str, message: String) -> (e: FormatError)
    ensures
        field_error(e, block@, row, field@, message@),
{
    FormatError::TsvFieldParse { block: block.to_owned(), row, field: field.to_owned(), message }
}

fn uuid_cell(value: &str, block: &str, row: usize, field: &str) -> (r: Result<u128, FormatError>)
    ensures
        match uuid_cell_outcome(value@) {
            Ok(v) => r == Ok::<u128, FormatError>(v),
            Err(m) => r matches Err(e) && field_error(e, block@, row, field@, m),
        },
{
    if value.is_empty() {
        return Ok(0);
    }
    match uuid_parse(value) {
        Ok(v) => Ok(v),
        Err(m) => Err(field_parse_error(block, row, field, m)),
    }
}

fn int_cell(value: &str, block: &str, row: usize, field: &str) -> (r: Result<i64, FormatError>)
    ensures
        match int_cell_outcome(value@) {
            Ok(v) => r == Ok::<i64, FormatError>(v),
            Err(m) => r matches Err(e) && field_error(e, block@, row, field@, m),
        },
{
    parse_i64(value, block, row, field)
}

fn u32_cell(value: &str, block: &str, row: usize, field: &str) -> (r: Result<u32, FormatError>)
    ensures
        match u32_cell_outcome(value@) {
            Ok(v) => r == Ok::<u32, FormatError>(v),
            Err(m) => r matches Err(e) && field_error(e, block@, row, field@, m),
        },
{
    let s = chars_of(value);
    if s.len() == 0 {
        return Err(field_parse_error(block, row, field, "cannot parse integer from empty string".to_owned()));
    }
    if s.len() == 1 && (s[0] == '+' || s[0] == '-') {
        return Err(field_parse_error(block, row, field, "invalid digit found in string".to_owned()));
    }
    let mut i: usize = if s[0] == '+' {
        1
    } else {
        0
    };
    let mut acc: u64 = 0;
    while i < s.len()
        invariant
            i <= s@.len(),
            s@ == value@,
            acc <= u32::MAX,
            u32_digits_from(s@, i as int, acc as int) == parse_u32_kind(value@),
        decreases s.len() - i,
    {
        let c = s[i];
        if !('0' <= c && c <= '9') {
            return Err(field_parse_error(block, row, field, "invalid digit found in string".to_owned()));
        }
        let d = ((c as u32) - ('0' as u32)) as u64;
        let next = acc * 10 + d;
        if next > u32::MAX as u64 {
            return Err(field_parse_error(block, row, field, "number too large to fit in target type".to_owned()));
        }
        acc = next;
        i += 1;
    }
    Ok(acc as u32)
}

fn decimal_cell(value: &str, block: &str, row: usize, field: &str) -> (r: Result<i64, FormatError>)
    ensures
        match decimal_cell_outcome(value@) {
            Ok(v) => r == Ok::<i64, FormatError>(v),
            Err(m) => r matches Err(e) && field_error(e, block@, row, field@, m),
        },
{
    if value.is_empty() {
        return Ok(0);
    }
    match parse_millionths(value) {
        Some(v) => Ok(v),
        None => Err(field_parse_error(block, row, field, "invalid float literal".to_owned())),
    }
}


// ---------------------------------------------------------------------------
// Tables
// ---------------------------------------------------------------------------

/// A row of a TSV block: its columns, its cells, and how its cells read
/// back.
pub trait SnxTable: Sized {
    /// The column names, in order.
    spec fn column_names() -> Seq<Seq<char>>;

    /// The cells a row is written as, one per column.
    spec fn cells_of(row: Self) -> Seq<Seq<char>>;

    /// `row` is what cells `c` read as.
    spec fn read_from(row: Self, c: Seq<Seq<char>>) -> bool;

    /// The first field of cells `c` that does not read, with the reason.
    spec fn first_bad_field(c: Seq<Seq<char>>) -> Option<(Seq<char>, Seq<char>)>;

    /// The column names are bare tokens, as a header carries them.
    proof fn lemma_columns_bare()
        ensures
            header_columns(Self::column_names()),
    ;

    fn columns() -> (r: Vec<&'static str>)
        ensures
            strs_view(r@) == Self::column_names(),
    ;

    /// Writes a row's cells; read back, they give the same row.
    fn to_row(&self) -> (r: Vec<String>)
        ensures
            strings_view(r@) == Self::cells_of(*self),
            r@.len() == Self::column_names().len(),
            Self::first_bad_field(strings_view(r@)) is None,
            Self::read_from(*self, strings_view(r@)),
    ;

    /// Reads a row from its cells; the first field that does not read is
    /// the error, with the block and row it stands in.
    fn from_row(values: &[&str], block: &str, row: usize) -> (r: Result<Self, FormatError>)
        requires
            values@.len() == Self::column_names().len(),
        ensures
            match r {
                Ok(x) => Self::first_bad_field(strs_view(values@)) is None && Self::read_from(x, strs_view(values@)),
                Err(e) => Self::first_bad_field(strs_view(values@)) matches Some((f, m)) && field_error(
                    e,
                    block@,
                    row,
                    f,
                    m,
                ),
            },
    ;
}

pub open spec fn cells_of_rows<R: SnxTable>(rows: Seq<R>) -> Seq<Seq<Seq<char>>> {
    rows.map_values(|x: R| R::cells_of(x))
}

/// The TSV block of `rows`: header, then one aligned line per row. Read
/// back, the block gives the cells of the same rows (when no string cell
/// is a lone `-` or holds a line break), and those cells read as the rows.
pub fn write_rows<R: SnxTable>(rows: &[R]) -> (r: String)
    ensures
        r@ == write_block_spec(R::column_names(), cells_of_rows(rows@)),
        forall|i: int|
            0 <= i < rows@.len() ==> R::first_bad_field(R::cells_of(#[trigger] rows@[i])) is None && R::read_from(
                rows@[i],
                R::cells_of(rows@[i]),
            ),
        round_trip_rows(R::column_names().len() as int, cells_of_rows(rows@)) ==> parse_block_spec(r@, R::column_names()) == TsvParse::Rows(cells_of_rows(rows@)) && first_bad_row::<R>(
            cells_of_rows(rows@),
            0,
        ) is None,
{
    let columns = R::columns();
    let mut cells: Vec<Vec<String>> = Vec::new();
    let mut i: usize = 0;
    while i < rows.len()
        invariant
            i <= rows@.len(),
            strs_view(columns@) == R::column_names(),
            cells@.len() == i,
            rows_view(cells@) == cells_of_rows(rows@.take(i as int)),
            forall|k: int| 0 <= k < i ==> (#[trigger] cells@[k])@.len() == columns@.len(),
            forall|k: int|
                0 <= k < i ==> R::first_bad_field(R::cells_of(#[trigger] rows@[k])) is None && R::read_from(
                    rows@[k],
                    R::cells_of(rows@[k]),
                ),
        decreases rows.len() - i,
    {
        let ghost before = cells@;
        let c = rows[i].to_row();
        cells.push(c);
        assert(rows_view(cells@) =~= cells_of_rows(rows@.take(i + 1))) by {
            assert forall|k: int| 0 <= k < i + 1 implies rows_view(cells@)[k] == cells_of_rows(rows@.take(i + 1))[k] by {
                if k < i {
                    assert(cells@[k] == before[k]);
                    assert(rows_view(before)[k] == cells_of_rows(rows@.take(i as int))[k]);
                }
            }
        }
        i += 1;
    }
    assert(rows@.take(i as int) =~= rows@);
    proof {
        R::lemma_columns_bare();
        if round_trip_rows(R::column_names().len() as int, cells_of_rows(rows@)) {
            lemma_tsv_round_trip(R::column_names(), cells_of_rows(rows@));
            lemma_no_bad_row::<R>(rows@, 0);
        }
    }
    write_tsv_block(columns.as_slice(), cells.as_slice())
}

proof fn lemma_no_bad_row<R: SnxTable>(rows: Seq<R>, k: int)
    requires
        0 <= k,
        forall|i: int| 0 <= i < rows.len() ==> R::first_bad_field(R::cells_of(#[trigger] rows[i])) is None,
    ensures
        first_bad_row::<R>(cells_of_rows(rows), k) is None,
    decreases rows.len() - k,
{
    if k < rows.len() {
        assert(cells_of_rows(rows)[k] == R::cells_of(rows[k]));
        lemma_no_bad_row::<R>(rows, k + 1);
    }
}

/// Reading back a block written from `rows` gives `Ok` with as many rows,
/// row `i` read from the very cells `rows[i]` was written as, so holding
/// the same fields; given rows whose cells read back as themselves and
/// hold neither a lone `-` nor a line break.
pub proof fn lemma_rows_read_back<R: SnxTable>(rows: Seq<R>, block: Seq<char>, r: Result<Vec<R>, FormatError>)
    requires
        round_trip_rows(R::column_names().len() as int, cells_of_rows(rows)),
        forall|i: int| 0 <= i < rows.len() ==> R::first_bad_field(R::cells_of(#[trigger] rows[i])) is None,
        forall|i: int| 0 <= i < rows.len() ==> R::read_from(#[trigger] rows[i], R::cells_of(rows[i])),
        rows_read::<R>(r, block, write_block_spec(R::column_names(), cells_of_rows(rows))),
    ensures
        r matches Ok(v) && v@.len() == rows.len() && forall|i: int| 0 <= i < rows.len() ==> R::read_from(
            #[trigger] v@[i],
            R::cells_of(rows[i]),
        ),
{
    R::lemma_columns_bare();
    lemma_tsv_round_trip(R::column_names(), cells_of_rows(rows));
    lemma_no_bad_row::<R>(rows, 0);
    let cs = cells_of_rows(rows);
    assert forall|i: int| 0 <= i < rows.len() implies cs[i] == R::cells_of(rows[i]) by {}
}

/// The first data row of `rs` whose cells do not read as an `R`: its
/// number, the field and the reason.
pub open spec fn first_bad_row<R: SnxTable>(rs: Seq<Seq<Seq<char>>>, k: int) -> Option<(int, Seq<char>, Seq<char>)>
    decreases rs.len() - k,
{
    if k < 0 || k >= rs.len() {
        None
    } else {
        match R::first_bad_field(rs[k]) {
            Some((f, m)) => Some((k, f, m)),
            None => first_bad_row::<R>(rs, k + 1),
        }
    }
}

/// What reading a block of `R` rows gives: the block's own error, or the
/// first row that does not read, or every row read in order.
pub open spec fn rows_read<R: SnxTable>(r: Result<Vec<R>, FormatError>, block: Seq<char>, content: Seq<char>) -> bool {
    match parse_block_spec(content, R::column_names()) {
        TsvParse::Rows(rs) => match first_bad_row::<R>(rs, 0) {
            Some((k, f, m)) => r matches Err(e) && field_error(e, block, k as usize, f, m),
            None => r matches Ok(v) && v@.len() == rs.len() && forall|i: int|
                0 <= i < rs.len() ==> R::read_from(#[trigger] v@[i], rs[i]),
        },
        other => r matches Err(e) && parse_block_result(
            Err::<Vec<Vec<String>>, FormatError>(e),
            block,
            R::column_names(),
            other,
        ),
    }
}

proof fn lemma_rows_from_width(lines: Seq<Seq<char>>, k: int, ncols: int, acc: Seq<Seq<Seq<char>>>)
    requires
        forall|i: int| 0 <= i < acc.len() ==> (#[trigger] acc[i]).len() == ncols,
    ensures
        rows_from(lines, k, ncols, acc) matches TsvParse::Rows(rs) ==> forall|i: int|
            0 <= i < rs.len() ==> (#[trigger] rs[i]).len() == ncols,
    decreases lines.len() - k,
{
    if 1 <= k < lines.len() {
        let cells = split_row_spec(lines[k]);
        if cells.len() == ncols {
            let next = acc.push(cells.map_values(|c: Seq<char>| decode_cell_spec(c)));
            assert forall|i: int| 0 <= i < next.len() implies (#[trigger] next[i]).len() == ncols by {
                if i < acc.len() {
                    assert(next[i] == acc[i]);
                }
            }
            lemma_rows_from_width(lines, k + 1, ncols, next);
        }
    }
}

fn str_refs(v: &Vec<String>) -> (r: Vec<&str>)
    ensures
        strs_view(r@) == strings_view(v@),
{
    let mut r: Vec<&str> = Vec::new();
    let mut i: usize = 0;
    while i < v.len()
        invariant
            i <= v@.len(),
            r@.len() == i,
            strs_view(r@) == strings_view(v@.take(i as int)),
        decreases v.len() - i,
    {
        let ghost before = r@;
        let t = v[i].as_str();
        assert(t@ == v@[i as int]@);
        r.push(t);
        assert forall|k: int| 0 <= k < i + 1 implies #[trigger] strs_view(r@)[k] == strings_view(v@.take(i + 1))[k] by {
            if k < i {
                assert(r@[k] == before[k]);
                assert(strs_view(before)[k] == strings_view(v@.take(i as int))[k]);
            }
        }
        assert(strs_view(r@) =~= strings_view(v@.take(i + 1)));
        i += 1;
    }
    assert(v@.take(i as int) =~= v@);
    r
}

/// Reads the rows of a TSV block: its header must name `R`'s columns;
/// each data row must read as an `R`.
pub fn read_rows<R: SnxTable>(block: &str, content: &str) -> (r: Result<Vec<R>, FormatError>)
    ensures
        rows_read(r, block@, content@),
{
    let columns = R::columns();
    let cells = match parse_tsv_block(block, content, columns.as_slice()) {
        Ok(c) => c,
        Err(e) => {
            return Err(e);
        },
    };
    let ghost rs = rows_view(cells@);
    proof {
        let cols = R::column_names();
        let t = strip_newlines(content@);
        if !(trim_spec(t).len() == 0) {
            let lines = block_lines(content@);
            if lines.len() != 0 && split_row_spec(lines[0]) == cols {
                lemma_rows_from_width(lines, 1, cols.len() as int, Seq::empty());
            }
        }
        assert(parse_block_spec(content@, cols) == TsvParse::Rows(rs));
    }
    let mut out: Vec<R> = Vec::new();
    let mut idx: usize = 0;
    while idx < cells.len()
        invariant
            idx <= cells@.len(),
            rs == rows_view(cells@),
            strs_view(columns@) == R::column_names(),
            parse_block_spec(content@, R::column_names()) == TsvParse::Rows(rs),
            forall|i: int| 0 <= i < rs.len() ==> (#[trigger] rs[i]).len() == R::column_names().len(),
            first_bad_row::<R>(rs, 0) == first_bad_row::<R>(rs, idx as int),
            out@.len() == idx,
            forall|i: int| 0 <= i < idx ==> R::read_from(#[trigger] out@[i], rs[i]),
        decreases cells.len() - idx,
    {
        let refs = str_refs(&cells[idx]);
        assert(strs_view(refs@) == rs[idx as int]);
        match R::from_row(refs.as_slice(), block, idx) {
            Ok(x) => {
                out.push(x);
            },
            Err(e) => {
                return Err(e);
            },
        }
        idx += 1;
    }
    Ok(out)
}

// ---------------------------------------------------------------------------
// Rows
// ---------------------------------------------------------------------------

/// A placed symbol in the `[sheets.components]` block.
#[derive(Debug, Clone, PartialEq, Eq)]
pub struct SchComponentRow {
    pub uuid: u128,
    pub ref_des: String,
    pub library: String,
    pub pos_x: i64,
    pub pos_y: i64,
    pub rotation: i64,
    pub value: String,
    pub mpn: String,
}

/// The cells of a `SchComponentRow`, in column order.
pub open spec fn sch_component_row_cells(r: SchComponentRow) -> Seq<Seq<char>> {
    seq![uuid_hyphenated(r.uuid as int), r.ref_des@, r.library@, signed_decimal(r.pos_x as int), signed_decimal(r.pos_y as int), fixed_text_spec(r.rotation as int), r.value@, r.mpn@]
}

/// `r` is what cells `c` read as.
pub open spec fn sch_component_row_read(r: SchComponentRow, c: Seq<Seq<char>>) -> bool {
    &&& uuid_cell_outcome(c[0]) == Ok::<u128, Seq<char>>(r.uuid)
    &&& r.ref_des@ == c[1]
    &&& r.library@ == c[2]
    &&& int_cell_outcome(c[3]) == Ok::<i64, Seq<char>>(r.pos_x)
    &&& int_cell_outcome(c[4]) == Ok::<i64, Seq<char>>(r.pos_y)
    &&& decimal_cell_outcome(c[5]) == Ok::<i64, Seq<char>>(r.rotation)
    &&& r.value@ == c[6]
    &&& r.mpn@ == c[7]
}

/// The first field of cells `c` that does not read, with the reason.
pub open spec fn sch_component_row_error(c: Seq<Seq<char>>) -> Option<(Seq<char>, Seq<char>)> {
    or_field(or_field(or_field(or_field(None, "uuid"@, err_of(uuid_cell_outcome(c[0]))), "pos_x"@, err_of(int_cell_outcome(c[3]))), "pos_y"@, err_of(int_cell_outcome(c[4]))), "rotation"@, err_of(decimal_cell_outcome(c[5])))
}

impl SnxTable for SchComponentRow {
    open spec fn column_names() -> Seq<Seq<char>> {
        seq!["uuid"@, "ref"@, "library"@, "pos_x"@, "pos_y"@, "rotation"@, "value"@, "mpn"@]
    }

    proof fn lemma_columns_bare() {
        reveal_strlit("uuid");
        reveal_strlit("ref");
        reveal_strlit("library");
        reveal_strlit("pos_x");
        reveal_strlit("pos_y");
        reveal_strlit("rotation");
        reveal_strlit("value");
        reveal_strlit("mpn");
        assert(bare_token("uuid"@));
        assert(bare_token("ref"@));
        assert(bare_token("library"@));
        assert(bare_token("pos_x"@));
        assert(bare_token("pos_y"@));
        assert(bare_token("rotation"@));
        assert(bare_token("value"@));
        assert(bare_token("mpn"@));
    }

    open spec fn cells_of(row: Self) -> Seq<Seq<char>> {
        sch_component_row_cells(row)
    }

    open spec fn read_from(row: Self, c: Seq<Seq<char>>) -> bool {
        sch_component_row_read(row, c)
    }

    open spec fn first_bad_field(c: Seq<Seq<char>>) -> Option<(Seq<char>, Seq<char>)> {
        sch_component_row_error(c)
    }

    fn columns() -> (r: Vec<&'static str>) {
        let r = vec!["uuid", "ref", "library", "pos_x", "pos_y", "rotation", "value", "mpn"];
        assert(strs_view(r@) =~= seq!["uuid"@, "ref"@, "library"@, "pos_x"@, "pos_y"@, "rotation"@, "value"@, "mpn"@]);
        r
    }

    fn to_row(&self) -> (r: Vec<String>) {
        proof {
            lemma_int_cell_round_trip(self.pos_x);
            lemma_int_cell_round_trip(self.pos_y);
            lemma_decimal_cell_round_trip(self.rotation);
        }
        let r = vec![uuid_text(self.uuid), self.ref_des.clone(), self.library.clone(), i64_to_string(self.pos_x), i64_to_string(self.pos_y), fixed_text(self.rotation as i128), self.value.clone(), self.mpn.clone()];
        assert(strings_view(r@) =~= sch_component_row_cells(*self));
        r
    }

    fn from_row(values: &[&str], block: &str, row: usize) -> (r: Result<SchComponentRow, FormatError>) {
        let ghost c = strs_view(values@);
        assert(c[0] == values@[0]@);
        assert(c[1] == values@[1]@);
        assert(c[2] == values@[2]@);
        assert(c[3] == values@[3]@);
        assert(c[4] == values@[4]@);
        assert(c[5] == values@[5]@);
        assert(c[6] == values@[6]@);
        assert(c[7] == values@[7]@);
        let uuid = match uuid_cell(values[0], block, row, "uuid") {
            Ok(v) => v,
            Err(e) => {
                return Err(e);
            },
        };
        let ref_des = values[1].to_owned();
        let library = values[2].to_owned();
        let pos_x = match int_cell(values[3], block, row, "pos_x") {
            Ok(v) => v,
            Err(e) => {
                return Err(e);
            },
        };
        let pos_y = match int_cell(values[4], block, row, "pos_y") {
            Ok(v) => v,
            Err(e) => {
                return Err(e);
            },
        };
        let rotation = match decimal_cell(values[5], block, row, "rotation") {
            Ok(v) => v,
            Err(e) => {
                return Err(e);
            },
        };
        let value = values[6].to_owned();
        let mpn = values[7].to_owned();
        Ok(SchComponentRow { uuid, ref_des, library, pos_x, pos_y, rotation, value, mpn })
    }
}

/// A wire in the `[sheets.wires]` block.
#[derive(Debug, Clone, PartialEq, Eq)]
pub struct SchWireRow {
    pub uuid: u128,
    pub net: String,
    pub start_x: i64,
    pub start_y: i64,
    pub end_x: i64,
    pub end_y: i64,
    pub stroke_width: i64,
}

/// The cells of a `SchWireRow`, in column order.
pub open spec fn sch_wire_row_cells(r: SchWireRow) -> Seq<Seq<char>> {
    seq![uuid_hyphenated(r.uuid as int), r.net@, signed_decimal(r.start_x as int), signed_decimal(r.start_y as int), signed_decimal(r.end_x as int), signed_decimal(r.end_y as int), fixed_text_spec(r.stroke_width as int)]
}

/// `r` is what cells `c` read as.
pub open spec fn sch_wire_row_read(r: SchWireRow, c: Seq<Seq<char>>) -> bool {
    &&& uuid_cell_outcome(c[0]) == Ok::<u128, Seq<char>>(r.uuid)
    &&& r.net@ == c[1]
    &&& int_cell_outcome(c[2]) == Ok::<i64, Seq<char>>(r.start_x)
    &&& int_cell_outcome(c[3]) == Ok::<i64, Seq<char>>(r.start_y)
    &&& int_cell_outcome(c[4]) == Ok::<i64, Seq<char>>(r.end_x)
    &&& int_cell_outcome(c[5]) == Ok::<i64, Seq<char>>(r.end_y)
    &&& decimal_cell_outcome(c[6]) == Ok::<i64, Seq<char>>(r.stroke_width)
}

/// The first field of cells `c` that does not read, with the reason.
pub open spec fn sch_wire_row_error(c: Seq<Seq<char>>) -> Option<(Seq<char>, Seq<char>)> {
    or_field(or_field(or_field(or_field(or_field(or_field(None, "uuid"@, err_of(uuid_cell_outcome(c[0]))), "start_x"@, err_of(int_cell_outcome(c[2]))), "start_y"@, err_of(int_cell_outcome(c[3]))), "end_x"@, err_of(int_cell_outcome(c[4]))), "end_y"@, err_of(int_cell_outcome(c[5]))), "stroke_width"@, err_of(decimal_cell_outcome(c[6])))
}

impl SnxTable for SchWireRow {
    open spec fn column_names() -> Seq<Seq<char>> {
        seq!["uuid"@, "net"@, "start_x"@, "start_y"@, "end_x"@, "end_y"@, "stroke_width"@]
    }

    proof fn lemma_columns_bare() {
        reveal_strlit("uuid");
        reveal_strlit("net");
        reveal_strlit("start_x");
        reveal_strlit("start_y");
        reveal_strlit("end_x");
        reveal_strlit("end_y");
        reveal_strlit("stroke_width");
        assert(bare_token("uuid"@));
        assert(bare_token("net"@));
        assert(bare_token("start_x"@));
        assert(bare_token("start_y"@));
        assert(bare_token("end_x"@));
        assert(bare_token("end_y"@));
        assert(bare_token("stroke_width"@));
    }

    open spec fn cells_of(row: Self) -> Seq<Seq<char>> {
        sch_wire_row_cells(row)
    }

    open spec fn read_from(row: Self, c: Seq<Seq<char>>) -> bool {
        sch_wire_row_read(row, c)
    }

    open spec fn first_bad_field(c: Seq<Seq<char>>) -> Option<(Seq<char>, Seq<char>)> {
        sch_wire_row_error(c)
    }

    fn columns() -> (r: Vec<&'static str>) {
        let r = vec!["uuid", "net", "start_x", "start_y", "end_x", "end_y", "stroke_width"];
        assert(strs_view(r@) =~= seq!["uuid"@, "net"@, "start_x"@, "start_y"@, "end_x"@, "end_y"@, "stroke_width"@]);
        r
    }

    fn to_row(&self) -> (r: Vec<String>) {
        proof {
            lemma_int_cell_round_trip(self.start_x);
            lemma_int_cell_round_trip(self.start_y);
            lemma_int_cell_round_trip(self.end_x);
            lemma_int_cell_round_trip(self.end_y);
            lemma_decimal_cell_round_trip(self.stroke_width);
        }
        let r = vec![uuid_text(self.uuid), self.net.clone(), i64_to_string(self.start_x), i64_to_string(self.start_y), i64_to_string(self.end_x), i64_to_string(self.end_y), fixed_text(self.stroke_width as i128)];
        assert(strings_view(r@) =~= sch_wire_row_cells(*self));
        r
    }

    fn from_row(values: &[&str], block: &str, row: usize) -> (r: Result<SchWireRow, FormatError>) {
        let ghost c = strs_view(values@);
        assert(c[0] == values@[0]@);
        assert(c[1] == values@[1]@);
        assert(c[2] == values@[2]@);
        assert(c[3] == values@[3]@);
        assert(c[4] == values@[4]@);
        assert(c[5] == values@[5]@);
        assert(c[6] == values@[6]@);
        let uuid = match uuid_cell(values[0], block, row, "uuid") {
            Ok(v) => v,
            Err(e) => {
                return Err(e);
            },
        };
        let net = values[1].to_owned();
        let start_x = match int_cell(values[2], block, row, "start_x") {
            Ok(v) => v,
            Err(e) => {
                return Err(e);
            },
        };
        let start_y = match int_cell(values[3], block, row, "start_y") {
            Ok(v) => v,
            Err(e) => {
                return Err(e);
            },
        };
        let end_x = match int_cell(values[4], block, row, "end_x") {
            Ok(v) => v,
            Err(e) => {
                return Err(e);
            },
        };
        let end_y = match int_cell(values[5], block, row, "end_y") {
            Ok(v) => v,
            Err(e) => {
                return Err(e);
            },
        };
        let stroke_width = match decimal_cell(values[6], block, row, "stroke_width") {
            Ok(v) => v,
            Err(e) => {
                return Err(e);
            },
        };
        Ok(SchWireRow { uuid, net, start_x, start_y, end_x, end_y, stroke_width })
    }
}

/// A junction in the `[sheets.junctions]` block.
#[derive(Debug, Clone, PartialEq, Eq)]
pub struct SchJunctionRow {
    pub uuid: u128,
    pub pos_x: i64,
    pub pos_y: i64,
    pub diameter: i64,
}

/// The cells of a `SchJunctionRow`, in column order.
pub open spec fn sch_junction_row_cells(r: SchJunctionRow) -> Seq<Seq<char>> {
    seq![uuid_hyphenated(r.uuid as int), signed_decimal(r.pos_x as int), signed_decimal(r.pos_y as int), fixed_text_spec(r.diameter as int)]
}

/// `r` is what cells `c` read as.
pub open spec fn sch_junction_row_read(r: SchJunctionRow, c: Seq<Seq<char>>) -> bool {
    &&& uuid_cell_outcome(c[0]) == Ok::<u128, Seq<char>>(r.uuid)
    &&& int_cell_outcome(c[1]) == Ok::<i64, Seq<char>>(r.pos_x)
    &&& int_cell_outcome(c[2]) == Ok::<i64, Seq<char>>(r.pos_y)
    &&& decimal_cell_outcome(c[3]) == Ok::<i64, Seq<char>>(r.diameter)
}

/// The first field of cells `c` that does not read, with the reason.
pub open spec fn sch_junction_row_error(c: Seq<Seq<char>>) -> Option<(Seq<char>, Seq<char>)> {
    or_field(or_field(or_field(or_field(None, "uuid"@, err_of(uuid_cell_outcome(c[0]))), "pos_x"@, err_of(int_cell_outcome(c[1]))), "pos_y"@, err_of(int_cell_outcome(c[2]))), "diameter"@, err_of(decimal_cell_outcome(c[3])))
}

impl SnxTable for SchJunctionRow {
    open spec fn column_names() -> Seq<Seq<char>> {
        seq!["uuid"@, "pos_x"@, "pos_y"@, "diameter"@]
    }

    proof fn lemma_columns_bare() {
        reveal_strlit("uuid");
        reveal_strlit("pos_x");
        reveal_strlit("pos_y");
        reveal_strlit("diameter");
        assert(bare_token("uuid"@));
        assert(bare_token("pos_x"@));
        assert(bare_token("pos_y"@));
        assert(bare_token("diameter"@));
    }

    open spec fn cells_of(row: Self) -> Seq<Seq<char>> {
        sch_junction_row_cells(row)
    }

    open spec fn read_from(row: Self, c: Seq<Seq<char>>) -> bool {
        sch_junction_row_read(row, c)
    }

    open spec fn first_bad_field(c: Seq<Seq<char>>) -> Option<(Seq<char>, Seq<char>)> {
        sch_junction_row_error(c)
    }

    fn columns() -> (r: Vec<&'static str>) {
        let r = vec!["uuid", "pos_x", "pos_y", "diameter"];
        assert(strs_view(r@) =~= seq!["uuid"@, "pos_x"@, "pos_y"@, "diameter"@]);
        r
    }

    fn to_row(&self) -> (r: Vec<String>) {
        proof {
            lemma_int_cell_round_trip(self.pos_x);
            lemma_int_cell_round_trip(self.pos_y);
            lemma_decimal_cell_round_trip(self.diameter);
        }
        let r = vec![uuid_text(self.uuid), i64_to_string(self.pos_x), i64_to_string(self.pos_y), fixed_text(self.diameter as i128)];
        assert(strings_view(r@) =~= sch_junction_row_cells(*self));
        r
    }

    fn from_row(values: &[&str], block: &str, row: usize) -> (r: Result<SchJunctionRow, FormatError>) {
        let ghost c = strs_view(values@);
        assert(c[0] == values@[0]@);
        assert(c[1] == values@[1]@);
        assert(c[2] == values@[2]@);
        assert(c[3] == values@[3]@);
        let uuid = match uuid_cell(values[0], block, row, "uuid") {
            Ok(v) => v,
            Err(e) => {
                return Err(e);
            },
        };
        let pos_x = match int_cell(values[1], block, row, "pos_x") {
            Ok(v) => v,
            Err(e) => {
                return Err(e);
            },
        };
        let pos_y = match int_cell(values[2], block, row, "pos_y") {
            Ok(v) => v,
            Err(e) => {
                return Err(e);
            },
        };
        let diameter = match decimal_cell(values[3], block, row, "diameter") {
            Ok(v) => v,
            Err(e) => {
                return Err(e);
            },
        };
        Ok(SchJunctionRow { uuid, pos_x, pos_y, diameter })
    }
}

/// A label in the `[sheets.labels]` block.
#[derive(Debug, Clone, PartialEq, Eq)]
pub struct SchLabelRow {
    pub uuid: u128,
    pub text: String,
    pub pos_x: i64,
    pub pos_y: i64,
    pub rotation: i64,
    pub kind: String,
    pub shape: String,
    pub font_size: i64,
    pub justify: String,
    pub justify_v: String,
}

/// The cells of a `SchLabelRow`, in column order.
pub open spec fn sch_label_row_cells(r: SchLabelRow) -> Seq<Seq<char>> {
    seq![uuid_hyphenated(r.uuid as int), r.text@, signed_decimal(r.pos_x as int), signed_decimal(r.pos_y as int), fixed_text_spec(r.rotation as int), r.kind@, r.shape@, fixed_text_spec(r.font_size as int), r.justify@, r.justify_v@]
}

/// `r` is what cells `c` read as.
pub open spec fn sch_label_row_read(r: SchLabelRow, c: Seq<Seq<char>>) -> bool {
    &&& uuid_cell_outcome(c[0]) == Ok::<u128, Seq<char>>(r.uuid)
    &&& r.text@ == c[1]
    &&& int_cell_outcome(c[2]) == Ok::<i64, Seq<char>>(r.pos_x)
    &&& int_cell_outcome(c[3]) == Ok::<i64, Seq<char>>(r.pos_y)
    &&& decimal_cell_outcome(c[4]) == Ok::<i64, Seq<char>>(r.rotation)
    &&& r.kind@ == c[5]
    &&& r.shape@ == c[6]
    &&& decimal_cell_outcome(c[7]) == Ok::<i64, Seq<char>>(r.font_size)
    &&& r.justify@ == c[8]
    &&& r.justify_v@ == c[9]
}

/// The first field of cells `c` that does not read, with the reason.
pub open spec fn sch_label_row_error(c: Seq<Seq<char>>) -> Option<(Seq<char>, Seq<char>)> {
    or_field(or_field(or_field(or_field(or_field(None, "uuid"@, err_of(uuid_cell_outcome(c[0]))), "pos_x"@, err_of(int_cell_outcome(c[2]))), "pos_y"@, err_of(int_cell_outcome(c[3]))), "rotation"@, err_of(decimal_cell_outcome(c[4]))), "font_size"@, err_of(decimal_cell_outcome(c[7])))
}

impl SnxTable for SchLabelRow {
    open spec fn column_names() -> Seq<Seq<char>> {
        seq!["uuid"@, "text"@, "pos_x"@, "pos_y"@, "rotation"@, "kind"@, "shape"@, "font_size"@, "justify"@, "justify_v"@]
    }

    proof fn lemma_columns_bare() {
        reveal_strlit("uuid");
        reveal_strlit("text");
        reveal_strlit("pos_x");
        reveal_strlit("pos_y");
        reveal_strlit("rotation");
        reveal_strlit("kind");
        reveal_strlit("shape");
        reveal_strlit("font_size");
        reveal_strlit("justify");
        reveal_strlit("justify_v");
        assert(bare_token("uuid"@));
        assert(bare_token("text"@));
        assert(bare_token("pos_x"@));
        assert(bare_token("pos_y"@));
        assert(bare_token("rotation"@));
        assert(bare_token("kind"@));
        assert(bare_token("shape"@));
        assert(bare_token("font_size"@));
        assert(bare_token("justify"@));
        assert(bare_token("justify_v"@));
    }

    open spec fn cells_of(row: Self) -> Seq<Seq<char>> {
        sch_label_row_cells(row)
    }

    open spec fn read_from(row: Self, c: Seq<Seq<char>>) -> bool {
        sch_label_row_read(row, c)
    }

    open spec fn first_bad_field(c: Seq<Seq<char>>) -> Option<(Seq<char>, Seq<char>)> {
        sch_label_row_error(c)
    }

    fn columns() -> (r: Vec<&'static str>) {
        let r = vec!["uuid", "text", "pos_x", "pos_y", "rotation", "kind", "shape", "font_size", "justify", "justify_v"];
        assert(strs_view(r@) =~= seq!["uuid"@, "text"@, "pos_x"@, "pos_y"@, "rotation"@, "kind"@, "shape"@, "font_size"@, "justify"@, "justify_v"@]);
        r
    }

    fn to_row(&self) -> (r: Vec<String>) {
        proof {
            lemma_int_cell_round_trip(self.pos_x);
            lemma_int_cell_round_trip(self.pos_y);
            lemma_decimal_cell_round_trip(self.rotation);
            lemma_decimal_cell_round_trip(self.font_size);
        }
        let r = vec![uuid_text(self.uuid), self.text.clone(), i64_to_string(self.pos_x), i64_to_string(self.pos_y), fixed_text(self.rotation as i128), self.kind.clone(), self.shape.clone(), fixed_text(self.font_size as i128), self.justify.clone(), self.justify_v.clone()];
        assert(strings_view(r@) =~= sch_label_row_cells(*self));
        r
    }

    fn from_row(values: &[&str], block: &str, row: usize) -> (r: Result<SchLabelRow, FormatError>) {
        let ghost c = strs_view(values@);
        assert(c[0] == values@[0]@);
        assert(c[1] == values@[1]@);
        assert(c[2] == values@[2]@);
        assert(c[3] == values@[3]@);
        assert(c[4] == values@[4]@);
        assert(c[5] == values@[5]@);
        assert(c[6] == values@[6]@);
        assert(c[7] == values@[7]@);
        assert(c[8] == values@[8]@);
        assert(c[9] == values@[9]@);
        let uuid = match uuid_cell(values[0], block, row, "uuid") {
            Ok(v) => v,
            Err(e) => {
                return Err(e);
            },
        };
        let text = values[1].to_owned();
        let pos_x = match int_cell(values[2], block, row, "pos_x") {
            Ok(v) => v,
            Err(e) => {
                return Err(e);
            },
        };
        let pos_y = match int_cell(values[3], block, row, "pos_y") {
            Ok(v) => v,
            Err(e) => {
                return Err(e);
            },
        };
        let rotation = match decimal_cell(values[4], block, row, "rotation") {
            Ok(v) => v,
            Err(e) => {
                return Err(e);
            },
        };
        let kind = values[5].to_owned();
        let shape = values[6].to_owned();
        let font_size = match decimal_cell(values[7], block, row, "font_size") {
            Ok(v) => v,
            Err(e) => {
                return Err(e);
            },
        };
        let justify = values[8].to_owned();
        let justify_v = values[9].to_owned();
        Ok(SchLabelRow { uuid, text, pos_x, pos_y, rotation, kind, shape, font_size, justify, justify_v })
    }
}

/// A footprint in the `[footprints]` block.
#[derive(Debug, Clone, PartialEq, Eq)]
pub struct PcbFootprintRow {
    pub uuid: u128,
    pub ref_des: String,
    pub library: String,
    pub pos_x: i64,
    pub pos_y: i64,
    pub rotation: i64,
    pub layer: String,
    pub value: String,
}

/// The cells of a `PcbFootprintRow`, in column order.
pub open spec fn pcb_footprint_row_cells(r: PcbFootprintRow) -> Seq<Seq<char>> {
    seq![uuid_hyphenated(r.uuid as int), r.ref_des@, r.library@, signed_decimal(r.pos_x as int), signed_decimal(r.pos_y as int), fixed_text_spec(r.rotation as int), r.layer@, r.value@]
}

/// `r` is what cells `c` read as.
pub open spec fn pcb_footprint_row_read(r: PcbFootprintRow, c: Seq<Seq<char>>) -> bool {
    &&& uuid_cell_outcome(c[0]) == Ok::<u128, Seq<char>>(r.uuid)
    &&& r.ref_des@ == c[1]
    &&& r.library@ == c[2]
    &&& int_cell_outcome(c[3]) == Ok::<i64, Seq<char>>(r.pos_x)
    &&& int_cell_outcome(c[4]) == Ok::<i64, Seq<char>>(r.pos_y)
    &&& decimal_cell_outcome(c[5]) == Ok::<i64, Seq<char>>(r.rotation)
    &&& r.layer@ == c[6]
    &&& r.value@ == c[7]
}

/// The first field of cells `c` that does not read, with the reason.
pub open spec fn pcb_footprint_row_error(c: Seq<Seq<char>>) -> Option<(Seq<char>, Seq<char>)> {
    or_field(or_field(or_field(or_field(None, "uuid"@, err_of(uuid_cell_outcome(c[0]))), "pos_x"@, err_of(int_cell_outcome(c[3]))), "pos_y"@, err_of(int_cell_outcome(c[4]))), "rotation"@, err_of(decimal_cell_outcome(c[5])))
}

impl SnxTable for PcbFootprintRow {
    open spec fn column_names() -> Seq<Seq<char>> {
        seq!["uuid"@, "ref"@, "library"@, "pos_x"@, "pos_y"@, "rotation"@, "layer"@, "value"@]
    }

    proof fn lemma_columns_bare() {
        reveal_strlit("uuid");
        reveal_strlit("ref");
        reveal_strlit("library");
        reveal_strlit("pos_x");
        reveal_strlit("pos_y");
        reveal_strlit("rotation");
        reveal_strlit("layer");
        reveal_strlit("value");
        assert(bare_token("uuid"@));
        assert(bare_token("ref"@));
        assert(bare_token("library"@));
        assert(bare_token("pos_x"@));
        assert(bare_token("pos_y"@));
        assert(bare_token("rotation"@));
        assert(bare_token("layer"@));
        assert(bare_token("value"@));
    }

    open spec fn cells_of(row: Self) -> Seq<Seq<char>> {
        pcb_footprint_row_cells(row)
    }

    open spec fn read_from(row: Self, c: Seq<Seq<char>>) -> bool {
        pcb_footprint_row_read(row, c)
    }

    open spec fn first_bad_field(c: Seq<Seq<char>>) -> Option<(Seq<char>, Seq<char>)> {
        pcb_footprint_row_error(c)
    }

    fn columns() -> (r: Vec<&'static str>) {
        let r = vec!["uuid", "ref", "library", "pos_x", "pos_y", "rotation", "layer", "value"];
        assert(strs_view(r@) =~= seq!["uuid"@, "ref"@, "library"@, "pos_x"@, "pos_y"@, "rotation"@, "layer"@, "value"@]);
        r
    }

    fn to_row(&self) -> (r: Vec<String>) {
        proof {
            lemma_int_cell_round_trip(self.pos_x);
            lemma_int_cell_round_trip(self.pos_y);
            lemma_decimal_cell_round_trip(self.rotation);
        }
        let r = vec![uuid_text(self.uuid), self.ref_des.clone(), self.library.clone(), i64_to_string(self.pos_x), i64_to_string(self.pos_y), fixed_text(self.rotation as i128), self.layer.clone(), self.value.clone()];
        assert(strings_view(r@) =~= pcb_footprint_row_cells(*self));
        r
    }

    fn from_row(values: &[&str], block: &str, row: usize) -> (r: Result<PcbFootprintRow, FormatError>) {
        let ghost c = strs_view(values@);
        assert(c[0] == values@[0]@);
        assert(c[1] == values@[1]@);
        assert(c[2] == values@[2]@);
        assert(c[3] == values@[3]@);
        assert(c[4] == values@[4]@);
        assert(c[5] == values@[5]@);
        assert(c[6] == values@[6]@);
        assert(c[7] == values@[7]@);
        let uuid = match uuid_cell(values[0], block, row, "uuid") {
            Ok(v) => v,
            Err(e) => {
                return Err(e);
            },
        };
        let ref_des = values[1].to_owned();
        let library = values[2].to_owned();
        let pos_x = match int_cell(values[3], block, row, "pos_x") {
            Ok(v) => v,
            Err(e) => {
                return Err(e);
            },
        };
        let pos_y = match int_cell(values[4], block, row, "pos_y") {
            Ok(v) => v,
            Err(e) => {
                return Err(e);
            },
        };
        let rotation = match decimal_cell(values[5], block, row, "rotation") {
            Ok(v) => v,
            Err(e) => {
                return Err(e);
            },
        };
        let layer = values[6].to_owned();
        let value = values[7].to_owned();
        Ok(PcbFootprintRow { uuid, ref_des, library, pos_x, pos_y, rotation, layer, value })
    }
}

/// A pad in the `[pads]` block, tied to its footprint by reference.
#[derive(Debug, Clone, PartialEq, Eq)]
pub struct PcbPadRow {
    pub uuid: u128,
    pub footprint_ref: String,
    pub pin: String,
    pub pos_x: i64,
    pub pos_y: i64,
    pub size_x: i64,
    pub size_y: i64,
    pub pad_type: String,
    pub shape: String,
    pub layers: String,
    pub drill: i64,
    pub net_number: u32,
    pub net_name: String,
    pub roundrect_ratio: i64,
}

/// The cells of a `PcbPadRow`, in column order.
pub open spec fn pcb_pad_row_cells(r: PcbPadRow) -> Seq<Seq<char>> {
    seq![uuid_hyphenated(r.uuid as int), r.footprint_ref@, r.pin@, signed_decimal(r.pos_x as int), signed_decimal(r.pos_y as int), signed_decimal(r.size_x as int), signed_decimal(r.size_y as int), r.pad_type@, r.shape@, r.layers@, signed_decimal(r.drill as int), decimal(r.net_number as nat), r.net_name@, fixed_text_spec(r.roundrect_ratio as int)]
}

/// `r` is what cells `c` read as.
pub open spec fn pcb_pad_row_read(r: PcbPadRow, c: Seq<Seq<char>>) -> bool {
    &&& uuid_cell_outcome(c[0]) == Ok::<u128, Seq<char>>(r.uuid)
    &&& r.footprint_ref@ == c[1]
    &&& r.pin@ == c[2]
    &&& int_cell_outcome(c[3]) == Ok::<i64, Seq<char>>(r.pos_x)
    &&& int_cell_outcome(c[4]) == Ok::<i64, Seq<char>>(r.pos_y)
    &&& int_cell_outcome(c[5]) == Ok::<i64, Seq<char>>(r.size_x)
    &&& int_cell_outcome(c[6]) == Ok::<i64, Seq<char>>(r.size_y)
    &&& r.pad_type@ == c[7]
    &&& r.shape@ == c[8]
    &&& r.layers@ == c[9]
    &&& int_cell_outcome(c[10]) == Ok::<i64, Seq<char>>(r.drill)
    &&& u32_cell_outcome(c[11]) == Ok::<u32, Seq<char>>(r.net_number)
    &&& r.net_name@ == c[12]
    &&& decimal_cell_outcome(c[13]) == Ok::<i64, Seq<char>>(r.roundrect_ratio)
}

/// The first field of cells `c` that does not read, with the reason.
pub open spec fn pcb_pad_row_error(c: Seq<Seq<char>>) -> Option<(Seq<char>, Seq<char>)> {
    or_field(or_field(or_field(or_field(or_field(or_field(or_field(or_field(None, "uuid"@, err_of(uuid_cell_outcome(c[0]))), "pos_x"@, err_of(int_cell_outcome(c[3]))), "pos_y"@, err_of(int_cell_outcome(c[4]))), "size_x"@, err_of(int_cell_outcome(c[5]))), "size_y"@, err_of(int_cell_outcome(c[6]))), "drill"@, err_of(int_cell_outcome(c[10]))), "net_number"@, err_of(u32_cell_outcome(c[11]))), "roundrect_ratio"@, err_of(decimal_cell_outcome(c[13])))
}

impl SnxTable for PcbPadRow {
    open spec fn column_names() -> Seq<Seq<char>> {
        seq!["uuid"@, "footprint_ref"@, "pin"@, "pos_x"@, "pos_y"@, "size_x"@, "size_y"@, "pad_type"@, "shape"@, "layers"@, "drill"@, "net_number"@, "net_name"@, "roundrect_ratio"@]
    }

    proof fn lemma_columns_bare() {
        reveal_strlit("uuid");
        reveal_strlit("footprint_ref");
        reveal_strlit("pin");
        reveal_strlit("pos_x");
        reveal_strlit("pos_y");
        reveal_strlit("size_x");
        reveal_strlit("size_y");
        reveal_strlit("pad_type");
        reveal_strlit("shape");
        reveal_strlit("layers");
        reveal_strlit("drill");
        reveal_strlit("net_number");
        reveal_strlit("net_name");
        reveal_strlit("roundrect_ratio");
        assert(bare_token("uuid"@));
        assert(bare_token("footprint_ref"@));
        assert(bare_token("pin"@));
        assert(bare_token("pos_x"@));
        assert(bare_token("pos_y"@));
        assert(bare_token("size_x"@));
        assert(bare_token("size_y"@));
        assert(bare_token("pad_type"@));
        assert(bare_token("shape"@));
        assert(bare_token("layers"@));
        assert(bare_token("drill"@));
        assert(bare_token("net_number"@));
        assert(bare_token("net_name"@));
        assert(bare_token("roundrect_ratio"@));
    }

    open spec fn cells_of(row: Self) -> Seq<Seq<char>> {
        pcb_pad_row_cells(row)
    }

    open spec fn read_from(row: Self, c: Seq<Seq<char>>) -> bool {
        pcb_pad_row_read(row, c)
    }

    open spec fn first_bad_field(c: Seq<Seq<char>>) -> Option<(Seq<char>, Seq<char>)> {
        pcb_pad_row_error(c)
    }

    fn columns() -> (r: Vec<&'static str>) {
        let r = vec!["uuid", "footprint_ref", "pin", "pos_x", "pos_y", "size_x", "size_y", "pad_type", "shape", "layers", "drill", "net_number", "net_name", "roundrect_ratio"];
        assert(strs_view(r@) =~= seq!["uuid"@, "footprint_ref"@, "pin"@, "pos_x"@, "pos_y"@, "size_x"@, "size_y"@, "pad_type"@, "shape"@, "layers"@, "drill"@, "net_number"@, "net_name"@, "roundrect_ratio"@]);
        r
    }

    fn to_row(&self) -> (r: Vec<String>) {
        proof {
            lemma_int_cell_round_trip(self.pos_x);
            lemma_int_cell_round_trip(self.pos_y);
            lemma_int_cell_round_trip(self.size_x);
            lemma_int_cell_round_trip(self.size_y);
            lemma_int_cell_round_trip(self.drill);
            lemma_u32_cell_round_trip(self.net_number);
            lemma_decimal_cell_round_trip(self.roundrect_ratio);
        }
        let r = vec![uuid_text(self.uuid), self.footprint_ref.clone(), self.pin.clone(), i64_to_string(self.pos_x), i64_to_string(self.pos_y), i64_to_string(self.size_x), i64_to_string(self.size_y), self.pad_type.clone(), self.shape.clone(), self.layers.clone(), i64_to_string(self.drill), u64_to_string(self.net_number as u64), self.net_name.clone(), fixed_text(self.roundrect_ratio as i128)];
        assert(strings_view(r@) =~= pcb_pad_row_cells(*self));
        r
    }

    fn from_row(values: &[&str], block: &str, row: usize) -> (r: Result<PcbPadRow, FormatError>) {
        let ghost c = strs_view(values@);
        assert(c[0] == values@[0]@);
        assert(c[1] == values@[1]@);
        assert(c[2] == values@[2]@);
        assert(c[3] == values@[3]@);
        assert(c[4] == values@[4]@);
        assert(c[5] == values@[5]@);
        assert(c[6] == values@[6]@);
        assert(c[7] == values@[7]@);
        assert(c[8] == values@[8]@);
        assert(c[9] == values@[9]@);
        assert(c[10] == values@[10]@);
        assert(c[11] == values@[11]@);
        assert(c[12] == values@[12]@);
        assert(c[13] == values@[13]@);
        let uuid = match uuid_cell(values[0], block, row, "uuid") {
            Ok(v) => v,
            Err(e) => {
                return Err(e);
            },
        };
        let footprint_ref = values[1].to_owned();
        let pin = values[2].to_owned();
        let pos_x = match int_cell(values[3], block, row, "pos_x") {
            Ok(v) => v,
            Err(e) => {
                return Err(e);
            },
        };
        let pos_y = match int_cell(values[4], block, row, "pos_y") {
            Ok(v) => v,
            Err(e) => {
                return Err(e);
            },
        };
        let size_x = match int_cell(values[5], block, row, "size_x") {
            Ok(v) => v,
            Err(e) => {
                return Err(e);
            },
        };
        let size_y = match int_cell(values[6], block, row, "size_y") {
            Ok(v) => v,
            Err(e) => {
                return Err(e);
            },
        };
        let pad_type = values[7].to_owned();
        let shape = values[8].to_owned();
        let layers = values[9].to_owned();
        let drill = match int_cell(values[10], block, row, "drill") {
            Ok(v) => v,
            Err(e) => {
                return Err(e);
            },
        };
        let net_number = match u32_cell(values[11], block, row, "net_number") {
            Ok(v) => v,
            Err(e) => {
                return Err(e);
            },
        };
        let net_name = values[12].to_owned();
        let roundrect_ratio = match decimal_cell(values[13], block, row, "roundrect_ratio") {
            Ok(v) => v,
            Err(e) => {
                return Err(e);
            },
        };
        Ok(PcbPadRow { uuid, footprint_ref, pin, pos_x, pos_y, size_x, size_y, pad_type, shape, layers, drill, net_number, net_name, roundrect_ratio })
    }
}

/// A track segment in the `[tracks]` block.
#[derive(Debug, Clone, PartialEq, Eq)]
pub struct PcbTrackRow {
    pub uuid: u128,
    pub net: u32,
    pub layer: String,
    pub width: i64,
    pub start_x: i64,
    pub start_y: i64,
    pub end_x: i64,
    pub end_y: i64,
}

/// The cells of a `PcbTrackRow`, in column order.
pub open spec fn pcb_track_row_cells(r: PcbTrackRow) -> Seq<Seq<char>> {
    seq![uuid_hyphenated(r.uuid as int), decimal(r.net as nat), r.layer@, signed_decimal(r.width as int), signed_decimal(r.start_x as int), signed_decimal(r.start_y as int), signed_decimal(r.end_x as int), signed_decimal(r.end_y as int)]
}

/// `r` is what cells `c` read as.
pub open spec fn pcb_track_row_read(r: PcbTrackRow, c: Seq<Seq<char>>) -> bool {
    &&& uuid_cell_outcome(c[0]) == Ok::<u128, Seq<char>>(r.uuid)
    &&& u32_cell_outcome(c[1]) == Ok::<u32, Seq<char>>(r.net)
    &&& r.layer@ == c[2]
    &&& int_cell_outcome(c[3]) == Ok::<i64, Seq<char>>(r.width)
    &&& int_cell_outcome(c[4]) == Ok::<i64, Seq<char>>(r.start_x)
    &&& int_cell_outcome(c[5]) == Ok::<i64, Seq<char>>(r.start_y)
    &&& int_cell_outcome(c[6]) == Ok::<i64, Seq<char>>(r.end_x)
    &&& int_cell_outcome(c[7]) == Ok::<i64, Seq<char>>(r.end_y)
}

/// The first field of cells `c` that does not read, with the reason.
pub open spec fn pcb_track_row_error(c: Seq<Seq<char>>) -> Option<(Seq<char>, Seq<char>)> {
    or_field(or_field(or_field(or_field(or_field(or_field(or_field(None, "uuid"@, err_of(uuid_cell_outcome(c[0]))), "net"@, err_of(u32_cell_outcome(c[1]))), "width"@, err_of(int_cell_outcome(c[3]))), "start_x"@, err_of(int_cell_outcome(c[4]))), "start_y"@, err_of(int_cell_outcome(c[5]))), "end_x"@, err_of(int_cell_outcome(c[6]))), "end_y"@, err_of(int_cell_outcome(c[7])))
}

impl SnxTable for PcbTrackRow {
    open spec fn column_names() -> Seq<Seq<char>> {
        seq!["uuid"@, "net"@, "layer"@, "width"@, "start_x"@, "start_y"@, "end_x"@, "end_y"@]
    }

    proof fn lemma_columns_bare() {
        reveal_strlit("uuid");
        reveal_strlit("net");
        reveal_strlit("layer");
        reveal_strlit("width");
        reveal_strlit("start_x");
        reveal_strlit("start_y");
        reveal_strlit("end_x");
        reveal_strlit("end_y");
        assert(bare_token("uuid"@));
        assert(bare_token("net"@));
        assert(bare_token("layer"@));
        assert(bare_token("width"@));
        assert(bare_token("start_x"@));
        assert(bare_token("start_y"@));
        assert(bare_token("end_x"@));
        assert(bare_token("end_y"@));
    }

    open spec fn cells_of(row: Self) -> Seq<Seq<char>> {
        pcb_track_row_cells(row)
    }

    open spec fn read_from(row: Self, c: Seq<Seq<char>>) -> bool {
        pcb_track_row_read(row, c)
    }

    open spec fn first_bad_field(c: Seq<Seq<char>>) -> Option<(Seq<char>, Seq<char>)> {
        pcb_track_row_error(c)
    }

    fn columns() -> (r: Vec<&'static str>) {
        let r = vec!["uuid", "net", "layer", "width", "start_x", "start_y", "end_x", "end_y"];
        assert(strs_view(r@) =~= seq!["uuid"@, "net"@, "layer"@, "width"@, "start_x"@, "start_y"@, "end_x"@, "end_y"@]);
        r
    }

    fn to_row(&self) -> (r: Vec<String>) {
        proof {
            lemma_u32_cell_round_trip(self.net);
            lemma_int_cell_round_trip(self.width);
            lemma_int_cell_round_trip(self.start_x);
            lemma_int_cell_round_trip(self.start_y);
            lemma_int_cell_round_trip(self.end_x);
            lemma_int_cell_round_trip(self.end_y);
        }
        let r = vec![uuid_text(self.uuid), u64_to_string(self.net as u64), self.layer.clone(), i64_to_string(self.width), i64_to_string(self.start_x), i64_to_string(self.start_y), i64_to_string(self.end_x), i64_to_string(self.end_y)];
        assert(strings_view(r@) =~= pcb_track_row_cells(*self));
        r
    }

    fn from_row(values: &[&str], block: &str, row: usize) -> (r: Result<PcbTrackRow, FormatError>) {
        let ghost c = strs_view(values@);
        assert(c[0] == values@[0]@);
        assert(c[1] == values@[1]@);
        assert(c[2] == values@[2]@);
        assert(c[3] == values@[3]@);
        assert(c[4] == values@[4]@);
        assert(c[5] == values@[5]@);
        assert(c[6] == values@[6]@);
        assert(c[7] == values@[7]@);
        let uuid = match uuid_cell(values[0], block, row, "uuid") {
            Ok(v) => v,
            Err(e) => {
                return Err(e);
            },
        };
        let net = match u32_cell(values[1], block, row, "net") {
            Ok(v) => v,
            Err(e) => {
                return Err(e);
            },
        };
        let layer = values[2].to_owned();
        let width = match int_cell(values[3], block, row, "width") {
            Ok(v) => v,
            Err(e) => {
                return Err(e);
            },
        };
        let start_x = match int_cell(values[4], block, row, "start_x") {
            Ok(v) => v,
            Err(e) => {
                return Err(e);
            },
        };
        let start_y = match int_cell(values[5], block, row, "start_y") {
            Ok(v) => v,
            Err(e) => {
                return Err(e);
            },
        };
        let end_x = match int_cell(values[6], block, row, "end_x") {
            Ok(v) => v,
            Err(e) => {
                return Err(e);
            },
        };
        let end_y = match int_cell(values[7], block, row, "end_y") {
            Ok(v) => v,
            Err(e) => {
                return Err(e);
            },
        };
        Ok(PcbTrackRow { uuid, net, layer, width, start_x, start_y, end_x, end_y })
    }
}

/// A via in the `[vias]` block.
#[derive(Debug, Clone, PartialEq, Eq)]
pub struct PcbViaRow {
    pub uuid: u128,
    pub net: u32,
    pub pos_x: i64,
    pub pos_y: i64,
    pub drill: i64,
    pub diameter: i64,
    pub layers: String,
    pub via_type: String,
}

/// The cells of a `PcbViaRow`, in column order.
pub open spec fn pcb_via_row_cells(r: PcbViaRow) -> Seq<Seq<char>> {
    seq![uuid_hyphenated(r.uuid as int), decimal(r.net as nat), signed_decimal(r.pos_x as int), signed_decimal(r.pos_y as int), signed_decimal(r.drill as int), signed_decimal(r.diameter as int), r.layers@, r.via_type@]
}

/// `r` is what cells `c` read as.
pub open spec fn pcb_via_row_read(r: PcbViaRow, c: Seq<Seq<char>>) -> bool {
    &&& uuid_cell_outcome(c[0]) == Ok::<u128, Seq<char>>(r.uuid)
    &&& u32_cell_outcome(c[1]) == Ok::<u32, Seq<char>>(r.net)
    &&& int_cell_outcome(c[2]) == Ok::<i64, Seq<char>>(r.pos_x)
    &&& int_cell_outcome(c[3]) == Ok::<i64, Seq<char>>(r.pos_y)
    &&& int_cell_outcome(c[4]) == Ok::<i64, Seq<char>>(r.drill)
    &&& int_cell_outcome(c[5]) == Ok::<i64, Seq<char>>(r.diameter)
    &&& r.layers@ == c[6]
    &&& r.via_type@ == c[7]
}

/// The first field of cells `c` that does not read, with the reason.
pub open spec fn pcb_via_row_error(c: Seq<Seq<char>>) -> Option<(Seq<char>, Seq<char>)> {
    or_field(or_field(or_field(or_field(or_field(or_field(None, "uuid"@, err_of(uuid_cell_outcome(c[0]))), "net"@, err_of(u32_cell_outcome(c[1]))), "pos_x"@, err_of(int_cell_outcome(c[2]))), "pos_y"@, err_of(int_cell_outcome(c[3]))), "drill"@, err_of(int_cell_outcome(c[4]))), "diameter"@, err_of(int_cell_outcome(c[5])))
}

impl SnxTable for PcbViaRow {
    open spec fn column_names() -> Seq<Seq<char>> {
        seq!["uuid"@, "net"@, "pos_x"@, "pos_y"@, "drill"@, "diameter"@, "layers"@, "via_type"@]
    }

    proof fn lemma_columns_bare() {
        reveal_strlit("uuid");
        reveal_strlit("net");
        reveal_strlit("pos_x");
        reveal_strlit("pos_y");
        reveal_strlit("drill");
        reveal_strlit("diameter");
        reveal_strlit("layers");
        reveal_strlit("via_type");
        assert(bare_token("uuid"@));
        assert(bare_token("net"@));
        assert(bare_token("pos_x"@));
        assert(bare_token("pos_y"@));
        assert(bare_token("drill"@));
        assert(bare_token("diameter"@));
        assert(bare_token("layers"@));
        assert(bare_token("via_type"@));
    }

    open spec fn cells_of(row: Self) -> Seq<Seq<char>> {
        pcb_via_row_cells(row)
    }

    open spec fn read_from(row: Self, c: Seq<Seq<char>>) -> bool {
        pcb_via_row_read(row, c)
    }

    open spec fn first_bad_field(c: Seq<Seq<char>>) -> Option<(Seq<char>, Seq<char>)> {
        pcb_via_row_error(c)
    }

    fn columns() -> (r: Vec<&'static str>) {
        let r = vec!["uuid", "net", "pos_x", "pos_y", "drill", "diameter", "layers", "via_type"];
        assert(strs_view(r@) =~= seq!["uuid"@, "net"@, "pos_x"@, "pos_y"@, "drill"@, "diameter"@, "layers"@, "via_type"@]);
        r
    }

    fn to_row(&self) -> (r: Vec<String>) {
        proof {
            lemma_u32_cell_round_trip(self.net);
            lemma_int_cell_round_trip(self.pos_x);
            lemma_int_cell_round_trip(self.pos_y);
            lemma_int_cell_round_trip(self.drill);
            lemma_int_cell_round_trip(self.diameter);
        }
        let r = vec![uuid_text(self.uuid), u64_to_string(self.net as u64), i64_to_string(self.pos_x), i64_to_string(self.pos_y), i64_to_string(self.drill), i64_to_string(self.diameter), self.layers.clone(), self.via_type.clone()];
        assert(strings_view(r@) =~= pcb_via_row_cells(*self));
        r
    }

    fn from_row(values: &[&str], block: &str, row: usize) -> (r: Result<PcbViaRow, FormatError>) {
        let ghost c = strs_view(values@);
        assert(c[0] == values@[0]@);
        assert(c[1] == values@[1]@);
        assert(c[2] == values@[2]@);
        assert(c[3] == values@[3]@);
        assert(c[4] == values@[4]@);
        assert(c[5] == values@[5]@);
        assert(c[6] == values@[6]@);
        assert(c[7] == values@[7]@);
        let uuid = match uuid_cell(values[0], block, row, "uuid") {
            Ok(v) => v,
            Err(e) => {
                return Err(e);
            },
        };
        let net = match u32_cell(values[1], block, row, "net") {
            Ok(v) => v,
            Err(e) => {
                return Err(e);
            },
        };
        let pos_x = match int_cell(values[2], block, row, "pos_x") {
            Ok(v) => v,
            Err(e) => {
                return Err(e);
            },
        };
        let pos_y = match int_cell(values[3], block, row, "pos_y") {
            Ok(v) => v,
            Err(e) => {
                return Err(e);
            },
        };
        let drill = match int_cell(values[4], block, row, "drill") {
            Ok(v) => v,
            Err(e) => {
                return Err(e);
            },
        };
        let diameter = match int_cell(values[5], block, row, "diameter") {
            Ok(v) => v,
            Err(e) => {
                return Err(e);
            },
        };
        let layers = values[6].to_owned();
        let via_type = values[7].to_owned();
        Ok(PcbViaRow { uuid, net, pos_x, pos_y, drill, diameter, layers, via_type })
    }
}

// ---------------------------------------------------------------------------
// Records and rows
// ---------------------------------------------------------------------------

/// The row of a wire; it names no net.
pub fn wire_to_row(w: &Wire) -> (r: SchWireRow)
    ensures
        r.uuid == w.uuid && r.net@ == Seq::<char>::empty(),
        r.start_x == w.start.x && r.start_y == w.start.y && r.end_x == w.end.x && r.end_y == w.end.y,
        r.stroke_width == w.stroke_width,
{
    SchWireRow {
        uuid: w.uuid,
        net: String::new(),
        start_x: w.start.x,
        start_y: w.start.y,
        end_x: w.end.x,
        end_y: w.end.y,
        stroke_width: w.stroke_width,
    }
}

pub fn row_to_wire(row: SchWireRow) -> (w: Wire)
    ensures
        w == (Wire {
            uuid: row.uuid,
            start: Vec2 { x: row.start_x, y: row.start_y },
            end: Vec2 { x: row.end_x, y: row.end_y },
            stroke_width: row.stroke_width,
        }),
{
    Wire {
        uuid: row.uuid,
        start: Vec2 { x: row.start_x, y: row.start_y },
        end: Vec2 { x: row.end_x, y: row.end_y },
        stroke_width: row.stroke_width,
    }
}

pub fn junction_to_row(j: &Junction) -> (r: SchJunctionRow)
    ensures
        r == (SchJunctionRow { uuid: j.uuid, pos_x: j.position.x, pos_y: j.position.y, diameter: j.diameter }),
{
    SchJunctionRow { uuid: j.uuid, pos_x: j.position.x, pos_y: j.position.y, diameter: j.diameter }
}

pub fn row_to_junction(row: SchJunctionRow) -> (j: Junction)
    ensures
        j == (Junction { uuid: row.uuid, position: Vec2 { x: row.pos_x, y: row.pos_y }, diameter: row.diameter }),
{
    Junction { uuid: row.uuid, position: Vec2 { x: row.pos_x, y: row.pos_y }, diameter: row.diameter }
}

/// The row of a label: its kind and justification as their tokens.
pub fn label_to_row(l: &Label) -> (r: SchLabelRow)
    ensures
        r.uuid == l.uuid && r.text@ == l.text@ && r.pos_x == l.position.x && r.pos_y == l.position.y,
        r.rotation == l.rotation && r.kind@ == label_kind_text(l.label_type) && r.shape@ == l.shape@,
        r.font_size == l.font_size && r.justify@ == halign_text(l.justify) && r.justify_v@ == valign_text(
            l.justify_v,
        ),
{
    SchLabelRow {
        uuid: l.uuid,
        text: l.text.clone(),
        pos_x: l.position.x,
        pos_y: l.position.y,
        rotation: l.rotation,
        kind: label_kind_str(l.label_type).to_owned(),
        shape: l.shape.clone(),
        font_size: l.font_size,
        justify: halign_str(l.justify).to_owned(),
        justify_v: valign_str(l.justify_v).to_owned(),
    }
}

/// The label a row holds; tokens it does not know read as the defaults.
pub fn row_to_label(row: SchLabelRow) -> (l: Label)
    ensures
        l.uuid == row.uuid && l.text@ == row.text@ && l.position == (Vec2 { x: row.pos_x, y: row.pos_y }),
        l.rotation == row.rotation && l.label_type == parse_label_kind_spec(row.kind@) && l.shape@ == row.shape@,
        l.font_size == row.font_size && l.justify == parse_halign_spec(row.justify@) && l.justify_v
            == parse_valign_spec(row.justify_v@),
{
    let label_type = parse_label_kind(row.kind.as_str());
    let justify = parse_halign(row.justify.as_str());
    let justify_v = parse_valign(row.justify_v.as_str());
    Label {
        uuid: row.uuid,
        text: row.text,
        position: Vec2 { x: row.pos_x, y: row.pos_y },
        rotation: row.rotation,
        label_type,
        shape: row.shape,
        font_size: row.font_size,
        justify,
        justify_v,
    }
}

pub fn footprint_to_row(fp: &Footprint) -> (r: PcbFootprintRow)
    ensures
        r.uuid == fp.uuid && r.ref_des@ == fp.reference@ && r.library@ == fp.footprint_id@,
        r.pos_x == fp.position.x && r.pos_y == fp.position.y && r.rotation == fp.rotation,
        r.layer@ == fp.layer@ && r.value@ == fp.value@,
{
    PcbFootprintRow {
        uuid: fp.uuid,
        ref_des: fp.reference.clone(),
        library: fp.footprint_id.clone(),
        pos_x: fp.position.x,
        pos_y: fp.position.y,
        rotation: fp.rotation,
        layer: fp.layer.clone(),
        value: fp.value.clone(),
    }
}

/// The footprint a row holds, with what its extras keep; its pads are
/// attached afterwards. The extras' library id, where there is one,
/// wins over the row's.
pub fn row_to_footprint(row: PcbFootprintRow, extras: FootprintExtras) -> (fp: Footprint)
    ensures
        fp.uuid == row.uuid && fp.reference == row.ref_des && fp.value == row.value,
        fp.footprint_id == (if extras.footprint_id@.len() != 0 {
            extras.footprint_id
        } else {
            row.library
        }),
        fp.position == (Vec2 { x: row.pos_x, y: row.pos_y }) && fp.rotation == row.rotation && fp.layer == row.layer,
        fp.locked == extras.locked && fp.pads@.len() == 0 && fp.graphics == extras.graphics && fp.properties
            == extras.properties,
{
    let footprint_id = if !extras.footprint_id.as_str().is_empty() {
        extras.footprint_id
    } else {
        row.library
    };
    Footprint {
        uuid: row.uuid,
        reference: row.ref_des,
        value: row.value,
        footprint_id,
        position: Vec2 { x: row.pos_x, y: row.pos_y },
        rotation: row.rotation,
        layer: row.layer,
        locked: extras.locked,
        pads: Vec::new(),
        graphics: extras.graphics,
        properties: extras.properties,
    }
}

/// The row of a pad of the footprint with reference `footprint_ref`:
/// no drill is a drill of 0, no net is net 0 with no name.
pub fn pad_to_row(pad: &Pad, footprint_ref: &str) -> (r: PcbPadRow)
    ensures
        r.uuid == pad.uuid && r.footprint_ref@ == footprint_ref@ && r.pin@ == pad.number@,
        r.pos_x == pad.position.x && r.pos_y == pad.position.y && r.size_x == pad.size.x && r.size_y == pad.size.y,
        r.pad_type@ == pad_type_text(pad.pad_type) && r.shape@ == pad_shape_text(pad.shape),
        r.layers@ == join_commas(strings_view(pad.layers@)),
        r.drill == match pad.drill {
            Some(d) => d.diameter,
            None => 0,
        },
        match pad.net {
            Some(n) => r.net_number == n.number && r.net_name@ == n.name@,
            None => r.net_number == 0 && r.net_name@ == Seq::<char>::empty(),
        },
        r.roundrect_ratio == pad.roundrect_ratio,
{
    let drill = match &pad.drill {
        Some(d) => d.diameter,
        None => 0,
    };
    let (net_number, net_name) = match &pad.net {
        Some(n) => (n.number, n.name.clone()),
        None => (0, String::new()),
    };
    PcbPadRow {
        uuid: pad.uuid,
        footprint_ref: footprint_ref.to_owned(),
        pin: pad.number.clone(),
        pos_x: pad.position.x,
        pos_y: pad.position.y,
        size_x: pad.size.x,
        size_y: pad.size.y,
        pad_type: pad_type_str(pad.pad_type).to_owned(),
        shape: pad_shape_str(pad.shape).to_owned(),
        layers: join_layers(pad.layers.as_slice()),
        drill,
        net_number,
        net_name,
        roundrect_ratio: pad.roundrect_ratio,
    }
}

/// The pad a row holds: a drill where the row's is positive (with the
/// extras' drill shape), a net where it names a number or a name.
pub fn row_to_pad(row: PcbPadRow, extras: PadExtras) -> (pad: Pad)
    ensures
        pad.uuid == row.uuid && pad.number == row.pin,
        pad.pad_type == parse_pad_type_spec(row.pad_type@) && pad.shape == parse_pad_shape_spec(row.shape@),
        pad.position == (Vec2 { x: row.pos_x, y: row.pos_y }) && pad.size == (Vec2 { x: row.size_x, y: row.size_y }),
        pad.drill == (if row.drill > 0 {
            Some(DrillDef { shape: extras.drill_shape, diameter: row.drill })
        } else {
            None
        }),
        strings_view(pad.layers@) == split_layers_spec(row.layers@),
        pad.net == (if row.net_number != 0 || row.net_name@.len() != 0 {
            Some(PadNet { number: row.net_number, name: row.net_name })
        } else {
            None
        }),
        pad.roundrect_ratio == row.roundrect_ratio,
{
    let drill = if row.drill > 0 {
        Some(DrillDef { shape: extras.drill_shape, diameter: row.drill })
    } else {
        None
    };
    let pad_type = parse_pad_type(row.pad_type.as_str());
    let shape = parse_pad_shape(row.shape.as_str());
    let layers = split_layers(row.layers.as_str());
    let net = if row.net_number != 0 || !row.net_name.as_str().is_empty() {
        Some(PadNet { number: row.net_number, name: row.net_name })
    } else {
        None
    };
    Pad {
        uuid: row.uuid,
        number: row.pin,
        pad_type,
        shape,
        position: Vec2 { x: row.pos_x, y: row.pos_y },
        size: Vec2 { x: row.size_x, y: row.size_y },
        drill,
        layers,
        net,
        roundrect_ratio: row.roundrect_ratio,
    }
}

pub fn track_to_row(t: &Segment) -> (r: PcbTrackRow)
    ensures
        r.uuid == t.uuid && r.net == t.net && r.layer@ == t.layer@ && r.width == t.width,
        r.start_x == t.start.x && r.start_y == t.start.y && r.end_x == t.end.x && r.end_y == t.end.y,
{
    PcbTrackRow {
        uuid: t.uuid,
        net: t.net,
        layer: t.layer.clone(),
        width: t.width,
        start_x: t.start.x,
        start_y: t.start.y,
        end_x: t.end.x,
        end_y: t.end.y,
    }
}

pub fn row_to_track(row: PcbTrackRow) -> (t: Segment)
    ensures
        t == (Segment {
            uuid: row.uuid,
            start: Vec2 { x: row.start_x, y: row.start_y },
            end: Vec2 { x: row.end_x, y: row.end_y },
            width: row.width,
            layer: row.layer,
            net: row.net,
        }),
{
    Segment {
        uuid: row.uuid,
        start: Vec2 { x: row.start_x, y: row.start_y },
        end: Vec2 { x: row.end_x, y: row.end_y },
        width: row.width,
        layer: row.layer,
        net: row.net,
    }
}

pub fn via_to_row(v: &Via) -> (r: PcbViaRow)
    ensures
        r.uuid == v.uuid && r.net == v.net && r.pos_x == v.position.x && r.pos_y == v.position.y,
        r.drill == v.drill && r.diameter == v.diameter,
        r.layers@ == join_commas(strings_view(v.layers@)) && r.via_type@ == via_type_text(v.via_type),
{
    PcbViaRow {
        uuid: v.uuid,
        net: v.net,
        pos_x: v.position.x,
        pos_y: v.position.y,
        drill: v.drill,
        diameter: v.diameter,
        layers: join_layers(v.layers.as_slice()),
        via_type: via_type_str(v.via_type).to_owned(),
    }
}

pub fn row_to_via(row: PcbViaRow) -> (v: Via)
    ensures
        v.uuid == row.uuid && v.net == row.net && v.position == (Vec2 { x: row.pos_x, y: row.pos_y }),
        v.diameter == row.diameter && v.drill == row.drill,
        strings_view(v.layers@) == split_layers_spec(row.layers@) && v.via_type == parse_via_type_spec(row.via_type@),
{
    let layers = split_layers(row.layers.as_str());
    let via_type = parse_via_type(row.via_type.as_str());
    Via {
        uuid: row.uuid,
        position: Vec2 { x: row.pos_x, y: row.pos_y },
        diameter: row.diameter,
        drill: row.drill,
        layers,
        net: row.net,
        via_type,
    }
}

// ---------------------------------------------------------------------------
// Sections
// ---------------------------------------------------------------------------

/// A TSV block as a TOML table `name` whose `content` is a literal
/// multi-line string.
pub open spec fn section_spec(name: Seq<char>, body: Seq<char>) -> Seq<char> {
    "\n["@ + name + "]\ncontent = \"\"\"\n"@ + body + "\"\"\"\n"@
}

/// Appends the section `name` holding the TSV block of `rows`.
pub fn write_tsv_section<R: SnxTable>(out: &mut String, name: &str, rows: &[R])
    ensures
        final(out)@ == old(out)@ + section_spec(name@, write_block_spec(R::column_names(), cells_of_rows(rows@))),
{
    let body = write_rows(rows);
    out.append("\n[");
    out.append(name);
    out.append("]\ncontent = \"\"\"\n");
    out.append(body.as_str());
    out.append("\"\"\"\n");
}

/// A symbol's `MPN` field, empty where it has none.
pub open spec fn mpn_of(s: Symbol) -> Seq<char> {
    if s.fields@.dom().contains("MPN"@) {
        s.fields@["MPN"@]
    } else {
        Seq::empty()
    }
}

/// The row of a placed symbol: its `MPN` field in a column of its own.
pub fn symbol_to_row(s: &Symbol) -> (r: SchComponentRow)
    ensures
        r.uuid == s.uuid && r.ref_des@ == s.reference@ && r.library@ == s.lib_id@,
        r.pos_x == s.position.x && r.pos_y == s.position.y && r.rotation == s.rotation,
        r.value@ == s.value@ && r.mpn@ == mpn_of(*s),
{
    proof {
        reveal_strlit("MPN");
    }
    let mpn = match s.fields.get("MPN") {
        Some(v) => v.clone(),
        None => String::new(),
    };
    SchComponentRow {
        uuid: s.uuid,
        ref_des: s.reference.clone(),
        library: s.lib_id.clone(),
        pos_x: s.position.x,
        pos_y: s.position.y,
        rotation: s.rotation,
        value: s.value.clone(),
        mpn,
    }
}

pub open spec fn symbol_cells(s: Symbol) -> Seq<Seq<char>> {
    seq![
        uuid_hyphenated(s.uuid as int),
        s.reference@,
        s.lib_id@,
        signed_decimal(s.position.x as int),
        signed_decimal(s.position.y as int),
        fixed_text_spec(s.rotation as int),
        s.value@,
        mpn_of(s),
    ]
}

pub open spec fn wire_cells(w: Wire) -> Seq<Seq<char>> {
    seq![
        uuid_hyphenated(w.uuid as int),
        Seq::empty(),
        signed_decimal(w.start.x as int),
        signed_decimal(w.start.y as int),
        signed_decimal(w.end.x as int),
        signed_decimal(w.end.y as int),
        fixed_text_spec(w.stroke_width as int),
    ]
}

pub open spec fn junction_cells(j: Junction) -> Seq<Seq<char>> {
    seq![
        uuid_hyphenated(j.uuid as int),
        signed_decimal(j.position.x as int),
        signed_decimal(j.position.y as int),
        fixed_text_spec(j.diameter as int),
    ]
}

pub open spec fn label_cells(l: Label) -> Seq<Seq<char>> {
    seq![
        uuid_hyphenated(l.uuid as int),
        l.text@,
        signed_decimal(l.position.x as int),
        signed_decimal(l.position.y as int),
        fixed_text_spec(l.rotation as int),
        label_kind_text(l.label_type),
        l.shape@,
        fixed_text_spec(l.font_size as int),
        halign_text(l.justify),
        valign_text(l.justify_v),
    ]
}

/// The four tables of a sheet's native file: components, wires,
/// junctions and labels, each a section, in that order.
pub open spec fn sheet_sections_spec(sh: SchematicSheet) -> Seq<char> {
    section_spec(
        "sheets.components"@,
        write_block_spec(SchComponentRow::column_names(), sh.symbols@.map_values(|s: Symbol| symbol_cells(s))),
    ) + section_spec(
        "sheets.wires"@,
        write_block_spec(SchWireRow::column_names(), sh.wires@.map_values(|w: Wire| wire_cells(w))),
    ) + section_spec(
        "sheets.junctions"@,
        write_block_spec(SchJunctionRow::column_names(), sh.junctions@.map_values(|j: Junction| junction_cells(j))),
    ) + section_spec(
        "sheets.labels"@,
        write_block_spec(SchLabelRow::column_names(), sh.labels@.map_values(|l: Label| label_cells(l))),
    )
}

fn component_rows(v: &Vec<Symbol>) -> (r: Vec<SchComponentRow>)
    ensures
        cells_of_rows(r@) == v@.map_values(|s: Symbol| symbol_cells(s)),
{
    let mut r: Vec<SchComponentRow> = Vec::new();
    let mut i: usize = 0;
    while i < v.len()
        invariant
            i <= v@.len(),
            r@.len() == i,
            cells_of_rows(r@) == v@.take(i as int).map_values(|s: Symbol| symbol_cells(s)),
        decreases v.len() - i,
    {
        let row = symbol_to_row(&v[i]);
        assert(SchComponentRow::cells_of(row) == symbol_cells(v@[i as int]));
        let ghost before = r@;
        r.push(row);
        assert forall|k: int| 0 <= k < i + 1 implies #[trigger] cells_of_rows(r@)[k] == v@.take(i + 1).map_values(
            |s: Symbol| symbol_cells(s),
        )[k] by {
            if k < i {
                assert(r@[k] == before[k]);
                assert(cells_of_rows(before)[k] == v@.take(i as int).map_values(|s: Symbol| symbol_cells(s))[k]);
            }
        }
        assert(cells_of_rows(r@) =~= v@.take(i + 1).map_values(|s: Symbol| symbol_cells(s)));
        i += 1;
    }
    assert(v@.take(i as int) =~= v@);
    r
}

fn wire_rows(v: &Vec<Wire>) -> (r: Vec<SchWireRow>)
    ensures
        cells_of_rows(r@) == v@.map_values(|w: Wire| wire_cells(w)),
{
    let mut r: Vec<SchWireRow> = Vec::new();
    let mut i: usize = 0;
    while i < v.len()
        invariant
            i <= v@.len(),
            r@.len() == i,
            cells_of_rows(r@) == v@.take(i as int).map_values(|w: Wire| wire_cells(w)),
        decreases v.len() - i,
    {
        let row = wire_to_row(&v[i]);
        assert(SchWireRow::cells_of(row) == wire_cells(v@[i as int]));
        let ghost before = r@;
        r.push(row);
        assert forall|k: int| 0 <= k < i + 1 implies #[trigger] cells_of_rows(r@)[k] == v@.take(i + 1).map_values(
            |w: Wire| wire_cells(w),
        )[k] by {
            if k < i {
                assert(r@[k] == before[k]);
                assert(cells_of_rows(before)[k] == v@.take(i as int).map_values(|w: Wire| wire_cells(w))[k]);
            }
        }
        assert(cells_of_rows(r@) =~= v@.take(i + 1).map_values(|w: Wire| wire_cells(w)));
        i += 1;
    }
    assert(v@.take(i as int) =~= v@);
    r
}

fn junction_rows(v: &Vec<Junction>) -> (r: Vec<SchJunctionRow>)
    ensures
        cells_of_rows(r@) == v@.map_values(|j: Junction| junction_cells(j)),
{
    let mut r: Vec<SchJunctionRow> = Vec::new();
    let mut i: usize = 0;
    while i < v.len()
        invariant
            i <= v@.len(),
            r@.len() == i,
            cells_of_rows(r@) == v@.take(i as int).map_values(|j: Junction| junction_cells(j)),
        decreases v.len() - i,
    {
        let row = junction_to_row(&v[i]);
        let ghost before = r@;
        r.push(row);
        assert forall|k: int| 0 <= k < i + 1 implies #[trigger] cells_of_rows(r@)[k] == v@.take(i + 1).map_values(
            |j: Junction| junction_cells(j),
        )[k] by {
            if k < i {
                assert(r@[k] == before[k]);
                assert(cells_of_rows(before)[k] == v@.take(i as int).map_values(|j: Junction| junction_cells(j))[k]);
            }
        }
        assert(cells_of_rows(r@) =~= v@.take(i + 1).map_values(|j: Junction| junction_cells(j)));
        i += 1;
    }
    assert(v@.take(i as int) =~= v@);
    r
}

fn label_rows(v: &Vec<Label>) -> (r: Vec<SchLabelRow>)
    ensures
        cells_of_rows(r@) == v@.map_values(|l: Label| label_cells(l)),
{
    let mut r: Vec<SchLabelRow> = Vec::new();
    let mut i: usize = 0;
    while i < v.len()
        invariant
            i <= v@.len(),
            r@.len() == i,
            cells_of_rows(r@) == v@.take(i as int).map_values(|l: Label| label_cells(l)),
        decreases v.len() - i,
    {
        let row = label_to_row(&v[i]);
        assert(SchLabelRow::cells_of(row) == label_cells(v@[i as int]));
        let ghost before = r@;
        r.push(row);
        assert forall|k: int| 0 <= k < i + 1 implies #[trigger] cells_of_rows(r@)[k] == v@.take(i + 1).map_values(
            |l: Label| label_cells(l),
        )[k] by {
            if k < i {
                assert(r@[k] == before[k]);
                assert(cells_of_rows(before)[k] == v@.take(i as int).map_values(|l: Label| label_cells(l))[k]);
            }
        }
        assert(cells_of_rows(r@) =~= v@.take(i + 1).map_values(|l: Label| label_cells(l)));
        i += 1;
    }
    assert(v@.take(i as int) =~= v@);
    r
}

/// The table sections of a sheet's native file.
pub fn sheet_sections(sh: &SchematicSheet) -> (r: String)
    ensures
        r@ == sheet_sections_spec(*sh),
{
    let mut out = String::new();
    let components = component_rows(&sh.symbols);
    let wires = wire_rows(&sh.wires);
    let junctions = junction_rows(&sh.junctions);
    let labels = label_rows(&sh.labels);
    write_tsv_section(&mut out, "sheets.components", components.as_slice());
    write_tsv_section(&mut out, "sheets.wires", wires.as_slice());
    write_tsv_section(&mut out, "sheets.junctions", junctions.as_slice());
    write_tsv_section(&mut out, "sheets.labels", labels.as_slice());
    assert(out@ =~= sheet_sections_spec(*sh));
    out
}

pub open spec fn footprint_cells(fp: Footprint) -> Seq<Seq<char>> {
    seq![
        uuid_hyphenated(fp.uuid as int),
        fp.reference@,
        fp.footprint_id@,
        signed_decimal(fp.position.x as int),
        signed_decimal(fp.position.y as int),
        fixed_text_spec(fp.rotation as int),
        fp.layer@,
        fp.value@,
    ]
}

/// The cells of a pad of the footprint with reference `fp_ref`.
pub open spec fn pad_cells(p: Pad, fp_ref: Seq<char>) -> Seq<Seq<char>> {
    let drill = match p.drill {
        Some(d) => d.diameter,
        None => 0,
    };
    let (number, name) = match p.net {
        Some(n) => (n.number, n.name@),
        None => (0u32, Seq::empty()),
    };
    seq![
        uuid_hyphenated(p.uuid as int),
        fp_ref,
        p.number@,
        signed_decimal(p.position.x as int),
        signed_decimal(p.position.y as int),
        signed_decimal(p.size.x as int),
        signed_decimal(p.size.y as int),
        pad_type_text(p.pad_type),
        pad_shape_text(p.shape),
        join_commas(strings_view(p.layers@)),
        signed_decimal(drill as int),
        decimal(number as nat),
        name,
        fixed_text_spec(p.roundrect_ratio as int),
    ]
}

/// The pad rows of a board: every footprint's pads, footprint by
/// footprint, each tied to its footprint's reference.
pub open spec fn board_pad_cells(fps: Seq<Footprint>) -> Seq<Seq<Seq<char>>>
    decreases fps.len(),
{
    if fps.len() == 0 {
        Seq::empty()
    } else {
        let fp = fps.last();
        board_pad_cells(fps.drop_last()) + fp.pads@.map_values(|p: Pad| pad_cells(p, fp.reference@))
    }
}

pub open spec fn track_cells(t: Segment) -> Seq<Seq<char>> {
    seq![
        uuid_hyphenated(t.uuid as int),
        decimal(t.net as nat),
        t.layer@,
        signed_decimal(t.width as int),
        signed_decimal(t.start.x as int),
        signed_decimal(t.start.y as int),
        signed_decimal(t.end.x as int),
        signed_decimal(t.end.y as int),
    ]
}

pub open spec fn via_cells(v: Via) -> Seq<Seq<char>> {
    seq![
        uuid_hyphenated(v.uuid as int),
        decimal(v.net as nat),
        signed_decimal(v.position.x as int),
        signed_decimal(v.position.y as int),
        signed_decimal(v.drill as int),
        signed_decimal(v.diameter as int),
        join_commas(strings_view(v.layers@)),
        via_type_text(v.via_type),
    ]
}

/// The four tables of a board's native file: footprints, pads, tracks
/// and vias, each a section, in that order.
pub open spec fn board_sections_spec(b: PcbBoard) -> Seq<char> {
    section_spec(
        "footprints"@,
        write_block_spec(PcbFootprintRow::column_names(), b.footprints@.map_values(|f: Footprint| footprint_cells(f))),
    ) + section_spec("pads"@, write_block_spec(PcbPadRow::column_names(), board_pad_cells(b.footprints@)))
        + section_spec(
        "tracks"@,
        write_block_spec(PcbTrackRow::column_names(), b.segments@.map_values(|t: Segment| track_cells(t))),
    ) + section_spec(
        "vias"@,
        write_block_spec(PcbViaRow::column_names(), b.vias@.map_values(|v: Via| via_cells(v))),
    )
}

fn footprint_rows(v: &Vec<Footprint>) -> (r: Vec<PcbFootprintRow>)
    ensures
        cells_of_rows(r@) == v@.map_values(|f: Footprint| footprint_cells(f)),
{
    let mut r: Vec<PcbFootprintRow> = Vec::new();
    let mut i: usize = 0;
    while i < v.len()
        invariant
            i <= v@.len(),
            r@.len() == i,
            cells_of_rows(r@) == v@.take(i as int).map_values(|f: Footprint| footprint_cells(f)),
        decreases v.len() - i,
    {
        let row = footprint_to_row(&v[i]);
        assert(PcbFootprintRow::cells_of(row) == footprint_cells(v@[i as int]));
        let ghost before = r@;
        r.push(row);
        assert forall|k: int| 0 <= k < i + 1 implies #[trigger] cells_of_rows(r@)[k] == v@.take(i + 1).map_values(
            |f: Footprint| footprint_cells(f),
        )[k] by {
            if k < i {
                assert(r@[k] == before[k]);
                assert(cells_of_rows(before)[k] == v@.take(i as int).map_values(|f: Footprint| footprint_cells(f))[k]);
            }
        }
        assert(cells_of_rows(r@) =~= v@.take(i + 1).map_values(|f: Footprint| footprint_cells(f)));
        i += 1;
    }
    assert(v@.take(i as int) =~= v@);
    r
}

fn track_rows(v: &Vec<Segment>) -> (r: Vec<PcbTrackRow>)
    ensures
        cells_of_rows(r@) == v@.map_values(|t: Segment| track_cells(t)),
{
    let mut r: Vec<PcbTrackRow> = Vec::new();
    let mut i: usize = 0;
    while i < v.len()
        invariant
            i <= v@.len(),
            r@.len() == i,
            cells_of_rows(r@) == v@.take(i as int).map_values(|t: Segment| track_cells(t)),
        decreases v.len() - i,
    {
        let row = track_to_row(&v[i]);
        assert(PcbTrackRow::cells_of(row) == track_cells(v@[i as int]));
        let ghost before = r@;
        r.push(row);
        assert forall|k: int| 0 <= k < i + 1 implies #[trigger] cells_of_rows(r@)[k] == v@.take(i + 1).map_values(
            |t: Segment| track_cells(t),
        )[k] by {
            if k < i {
                assert(r@[k] == before[k]);
                assert(cells_of_rows(before)[k] == v@.take(i as int).map_values(|t: Segment| track_cells(t))[k]);
            }
        }
        assert(cells_of_rows(r@) =~= v@.take(i + 1).map_values(|t: Segment| track_cells(t)));
        i += 1;
    }
    assert(v@.take(i as int) =~= v@);
    r
}

fn via_rows(v: &Vec<Via>) -> (r: Vec<PcbViaRow>)
    ensures
        cells_of_rows(r@) == v@.map_values(|x: Via| via_cells(x)),
{
    let mut r: Vec<PcbViaRow> = Vec::new();
    let mut i: usize = 0;
    while i < v.len()
        invariant
            i <= v@.len(),
            r@.len() == i,
            cells_of_rows(r@) == v@.take(i as int).map_values(|x: Via| via_cells(x)),
        decreases v.len() - i,
    {
        let row = via_to_row(&v[i]);
        assert(PcbViaRow::cells_of(row) == via_cells(v@[i as int]));
        let ghost before = r@;
        r.push(row);
        assert forall|k: int| 0 <= k < i + 1 implies #[trigger] cells_of_rows(r@)[k] == v@.take(i + 1).map_values(
            |x: Via| via_cells(x),
        )[k] by {
            if k < i {
                assert(r@[k] == before[k]);
                assert(cells_of_rows(before)[k] == v@.take(i as int).map_values(|x: Via| via_cells(x))[k]);
            }
        }
        assert(cells_of_rows(r@) =~= v@.take(i + 1).map_values(|x: Via| via_cells(x)));
        i += 1;
    }
    assert(v@.take(i as int) =~= v@);
    r
}

fn pad_rows(fps: &Vec<Footprint>) -> (r: Vec<PcbPadRow>)
    ensures
        cells_of_rows(r@) == board_pad_cells(fps@),
{
    let mut r: Vec<PcbPadRow> = Vec::new();
    let mut i: usize = 0;
    while i < fps.len()
        invariant
            i <= fps@.len(),
            cells_of_rows(r@) == board_pad_cells(fps@.take(i as int)),
        decreases fps.len() - i,
    {
        let fp = &fps[i];
        let ghost start = cells_of_rows(r@);
        assert(fps@.take(i + 1).drop_last() =~= fps@.take(i as int));
        let mut j: usize = 0;
        while j < fp.pads.len()
            invariant
                j <= fp.pads@.len(),
                *fp == fps@[i as int],
                r@.len() == start.len() + j,
                cells_of_rows(r@) == start + fp.pads@.take(j as int).map_values(|p: Pad| pad_cells(p, fp.reference@)),
            decreases fp.pads.len() - j,
        {
            let row = pad_to_row(&fp.pads[j], fp.reference.as_str());
            assert(PcbPadRow::cells_of(row) == pad_cells(fp.pads@[j as int], fp.reference@));
            let ghost before = r@;
            r.push(row);
            assert(cells_of_rows(r@) =~= start + fp.pads@.take(j + 1).map_values(
                |p: Pad| pad_cells(p, fp.reference@),
            )) by {
                assert forall|k: int| 0 <= k < r@.len() implies #[trigger] cells_of_rows(r@)[k] == (start
                    + fp.pads@.take(j + 1).map_values(|p: Pad| pad_cells(p, fp.reference@)))[k] by {
                    if k < before.len() {
                        assert(r@[k] == before[k]);
                        assert(cells_of_rows(before)[k] == (start + fp.pads@.take(j as int).map_values(
                            |p: Pad| pad_cells(p, fp.reference@),
                        ))[k]);
                    }
                }
            }
            j += 1;
        }
        assert(fp.pads@.take(j as int) =~= fp.pads@);
        i += 1;
    }
    assert(fps@.take(i as int) =~= fps@);
    r
}

/// The table sections of a board's native file.
pub fn board_sections(b: &PcbBoard) -> (r: String)
    ensures
        r@ == board_sections_spec(*b),
{
    let mut out = String::new();
    let footprints = footprint_rows(&b.footprints);
    let pads = pad_rows(&b.footprints);
    let tracks = track_rows(&b.segments);
    let vias = via_rows(&b.vias);
    write_tsv_section(&mut out, "footprints", footprints.as_slice());
    write_tsv_section(&mut out, "pads", pads.as_slice());
    write_tsv_section(&mut out, "tracks", tracks.as_slice());
    write_tsv_section(&mut out, "vias", vias.as_slice());
    assert(out@ =~= board_sections_spec(*b));
    out
}

// ---------------------------------------------------------------------------
// Pads back onto footprints
// ---------------------------------------------------------------------------

/// The references of the footprints after the first `k` pads have been
/// placed: a pad whose reference names no footprint yet adds one.
pub open spec fn refs_after(fp_refs: Seq<Seq<char>>, pad_refs: Seq<Seq<char>>, k: int) -> Seq<Seq<char>>
    decreases k,
{
    if k <= 0 {
        fp_refs
    } else {
        let r = refs_after(fp_refs, pad_refs, k - 1);
        if first_index_of(r, pad_refs[k - 1]) is Some {
            r
        } else {
            r.push(pad_refs[k - 1])
        }
    }
}

/// The footprint pad `k` goes to: the first with its reference, or the
/// one it adds.
pub open spec fn pad_home(fp_refs: Seq<Seq<char>>, pad_refs: Seq<Seq<char>>, k: int) -> int {
    let r = refs_after(fp_refs, pad_refs, k);
    match first_index_of(r, pad_refs[k]) {
        Some(i) => i,
        None => r.len() as int,
    }
}

/// The pads among the first `k` that go to footprint `i`, in order.
pub open spec fn pads_homed(fp_refs: Seq<Seq<char>>, pads: Seq<(String, Pad)>, i: int, k: int) -> Seq<Pad>
    decreases k,
{
    if k <= 0 {
        Seq::empty()
    } else {
        let prev = pads_homed(fp_refs, pads, i, k - 1);
        if pad_home(fp_refs, pad_refs_of(pads), k - 1) == i {
            prev.push(pads[k - 1].1)
        } else {
            prev
        }
    }
}

pub open spec fn pad_refs_of(pads: Seq<(String, Pad)>) -> Seq<Seq<char>> {
    pads.map_values(|e: (String, Pad)| e.0@)
}

pub open spec fn fp_refs_of(fps: Seq<Footprint>) -> Seq<Seq<char>> {
    fps.map_values(|f: Footprint| f.reference@)
}

/// `a` is `b` with other pads.
pub open spec fn same_but_pads(a: Footprint, b: Footprint) -> bool {
    &&& a.uuid == b.uuid
    &&& a.reference == b.reference
    &&& a.value == b.value
    &&& a.footprint_id == b.footprint_id
    &&& a.position == b.position
    &&& a.rotation == b.rotation
    &&& a.layer == b.layer
    &&& a.locked == b.locked
    &&& a.graphics == b.graphics
    &&& a.properties == b.properties
}

/// A footprint that only stands for reference `r`: nil UUID, nothing
/// else set.
pub open spec fn bare_footprint(f: Footprint, r: Seq<char>) -> bool {
    &&& f.uuid == 0
    &&& f.reference@ == r
    &&& f.value@.len() == 0
    &&& f.footprint_id@.len() == 0
    &&& f.position == (Vec2 { x: 0, y: 0 })
    &&& f.rotation == 0
    &&& f.layer@.len() == 0
    &&& !f.locked
    &&& f.graphics@.len() == 0
    &&& f.properties@.len() == 0
}

/// `out` is `fps` after placing the first `k` pads.
pub open spec fn pads_placed(out: Seq<Footprint>, fps: Seq<Footprint>, pads: Seq<(String, Pad)>, k: int) -> bool {
    let refs = refs_after(fp_refs_of(fps), pad_refs_of(pads), k);
    &&& out.len() == refs.len()
    &&& forall|i: int| 0 <= i < out.len() ==> (#[trigger] out[i]).reference@ == refs[i]
    &&& forall|i: int|
        0 <= i < fps.len() ==> same_but_pads(#[trigger] out[i], fps[i]) && out[i].pads@ == fps[i].pads@ + pads_homed(
            fp_refs_of(fps),
            pads,
            i,
            k,
        )
    &&& forall|i: int|
        fps.len() <= i < out.len() ==> bare_footprint(#[trigger] out[i], refs[i]) && out[i].pads@ == pads_homed(
            fp_refs_of(fps),
            pads,
            i,
            k,
        )
}

proof fn lemma_refs_after_grows(fp_refs: Seq<Seq<char>>, pad_refs: Seq<Seq<char>>, k: int)
    requires
        0 <= k,
    ensures
        refs_after(fp_refs, pad_refs, k).len() >= fp_refs.len(),
        forall|i: int| 0 <= i < fp_refs.len() ==> #[trigger] refs_after(fp_refs, pad_refs, k)[i] == fp_refs[i],
    decreases k,
{
    if k > 0 {
        lemma_refs_after_grows(fp_refs, pad_refs, k - 1);
    }
}

fn find_footprint(out: &Vec<Footprint>, r: &str) -> (j: Option<usize>)
    ensures
        match j {
            Some(i) => first_index_of(fp_refs_of(out@), r@) == Some(i as int),
            None => first_index_of(fp_refs_of(out@), r@) is None,
        },
{
    let ghost keys = fp_refs_of(out@);
    let mut i: usize = 0;
    while i < out.len()
        invariant
            i <= out@.len(),
            keys == fp_refs_of(out@),
            forall|w: int| 0 <= w < i ==> keys[w] != r@,
        decreases out.len() - i,
    {
        if str_eq(out[i].reference.as_str(), r) {
            assert(keys[i as int] == r@);
            proof {
                lemma_first_index_of(keys, r@);
            }
            return Some(i);
        }
        i += 1;
    }
    proof {
        lemma_first_index_of(keys, r@);
    }
    None
}

/// The footprints of a board read back from its tables: each pad goes to
/// the first footprint with its reference; a pad whose reference names
/// none gets a footprint of its own that holds nothing but the
/// reference, so that no pad is lost.
pub fn attach_pads(footprints: Vec<Footprint>, pads: Vec<(String, Pad)>) -> (r: Vec<Footprint>)
    ensures
        pads_placed(r@, footprints@, pads@, pads@.len() as int),
{
    let ghost fps = footprints@;
    let ghost all = pads@;
    let ghost fr = fp_refs_of(fps);
    let ghost pr = pad_refs_of(all);
    let mut out = footprints;
    let mut rest = pads;
    let ghost mut k: int = 0;
    assert(pads_placed(out@, fps, all, 0)) by {
        assert forall|i: int| 0 <= i < fps.len() implies same_but_pads(#[trigger] out@[i], fps[i]) && out@[i].pads@
            == fps[i].pads@ + pads_homed(fr, all, i, 0) by {
            assert(fps[i].pads@ + Seq::<Pad>::empty() =~= fps[i].pads@);
        }
    }
    while rest.len() > 0
        invariant
            0 <= k <= all.len(),
            rest@ == all.skip(k),
            fr == fp_refs_of(fps),
            pr == pad_refs_of(all),
            pads_placed(out@, fps, all, k),
        decreases rest@.len(),
    {
        let (r, pad) = rest.remove(0);
        assert(r@ == pr[k] && pad == all[k].1);
        let ghost refs = refs_after(fr, pr, k);
        let ghost before = out@;
        proof {
            lemma_refs_after_grows(fr, pr, k);
            assert(fp_refs_of(out@) =~= refs);
        }
        proof {
            lemma_first_index_of(fp_refs_of(out@), r@);
        }
        match find_footprint(&out, r.as_str()) {
            Some(j) => {
                let mut f = out.remove(j);
                let ghost fpads = f.pads@;
                f.pads.push(pad);
                out.insert(j, f);
                proof {
                    assert(pad_home(fr, pr, k) == j as int);
                    assert(refs_after(fr, pr, k + 1) == refs);
                    assert forall|i: int| 0 <= i < out@.len() && i != j implies #[trigger] out@[i] == before[i] by {}
                    assert forall|i: int| #![trigger pads_homed(fr, all, i, k + 1)] 0 <= i < out@.len()
                        implies pads_homed(fr, all, i, k + 1) == if i == j {
                        pads_homed(fr, all, i, k).push(pad)
                    } else {
                        pads_homed(fr, all, i, k)
                    } by {}
                    assert forall|i: int| 0 <= i < fps.len() implies same_but_pads(#[trigger] out@[i], fps[i])
                        && out@[i].pads@ == fps[i].pads@ + pads_homed(fr, all, i, k + 1) by {
                        if i == j {
                            assert(out@[i].pads@ =~= fps[i].pads@ + pads_homed(fr, all, i, k + 1));
                        } else {
                            assert(out@[i] == before[i]);
                        }
                    }
                    assert forall|i: int| fps.len() <= i < out@.len() implies bare_footprint(#[trigger] out@[i], refs[i])
                        && out@[i].pads@ == pads_homed(fr, all, i, k + 1) by {
                        if i == j {
                            assert(out@[i].pads@ =~= pads_homed(fr, all, i, k + 1));
                        } else {
                            assert(out@[i] == before[i]);
                        }
                    }
                }
            },
            None => {
                let mut own: Vec<Pad> = Vec::new();
                own.push(pad);
                let f = Footprint {
                    uuid: 0,
                    reference: r,
                    value: String::new(),
                    footprint_id: String::new(),
                    position: Vec2 { x: 0, y: 0 },
                    rotation: 0,
                    layer: String::new(),
                    locked: false,
                    pads: own,
                    graphics: Vec::new(),
                    properties: Vec::new(),
                };
                out.push(f);
                proof {
                    let n = before.len() as int;
                    assert(pad_home(fr, pr, k) == n);
                    assert(refs_after(fr, pr, k + 1) == refs.push(pr[k]));
                    assert forall|i: int| #![trigger pads_homed(fr, all, i, k + 1)] 0 <= i < out@.len()
                        implies pads_homed(fr, all, i, k + 1) == if i == n {
                        pads_homed(fr, all, i, k).push(pad)
                    } else {
                        pads_homed(fr, all, i, k)
                    } by {}
                    assert(pads_homed(fr, all, n, k) == Seq::<Pad>::empty()) by {
                        lemma_nothing_homed_past(fr, all, n, k);
                    }
                    assert forall|i: int| 0 <= i < fps.len() implies same_but_pads(#[trigger] out@[i], fps[i])
                        && out@[i].pads@ == fps[i].pads@ + pads_homed(fr, all, i, k + 1) by {
                        assert(out@[i] == before[i]);
                    }
                    assert forall|i: int| fps.len() <= i < out@.len() implies bare_footprint(
                        #[trigger] out@[i],
                        refs_after(fr, pr, k + 1)[i],
                    ) && out@[i].pads@ == pads_homed(fr, all, i, k + 1) by {
                        if i == n {
                            assert(out@[i].pads@ =~= pads_homed(fr, all, i, k + 1));
                        } else {
                            assert(out@[i] == before[i]);
                        }
                    }
                }
            },
        }
        proof {
            assert(rest@ =~= all.skip(k + 1));
            k = k + 1;
        }
    }
    out
}

/// No pad among the first `k` goes to a footprint at or past the end of
/// the list they leave.
proof fn lemma_nothing_homed_past(fr: Seq<Seq<char>>, all: Seq<(String, Pad)>, n: int, k: int)
    requires
        0 <= k,
        n >= refs_after(fr, pad_refs_of(all), k).len(),
    ensures
        pads_homed(fr, all, n, k) == Seq::<Pad>::empty(),
    decreases k,
{
    if k > 0 {
        let pr = pad_refs_of(all);
        let r = refs_after(fr, pr, k - 1);
        assert(r.len() <= refs_after(fr, pr, k).len());
        lemma_nothing_homed_past(fr, all, n, k - 1);
        lemma_first_index_of(r, pr[k - 1]);
        assert(pad_home(fr, pr, k - 1) < refs_after(fr, pr, k).len());
    }
}

} // verus!
