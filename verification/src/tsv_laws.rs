//! What a TSV block gives back: reading a written block yields the rows
//! that were written.

use vstd::prelude::*;

use crate::snx::{
    decode_cell_spec, double_quotes, drop_trailing_newlines, encode_cell_spec, has_ws_or_quote,
    keep_non_blank, lemma_cell_round_trip, parse_block_spec, render_cells, render_rows, rows_from,
    skip_newlines, split_from, split_row_spec, strip_newlines, table_spec, write_block_spec,
    block_lines, spaces, width_upto, TsvParse,
};
use crate::text::{
    find_char, is_ws, lemma_drop_trailing_bounds, lemma_find_char_absent, lemma_find_char_first,
    split_char, trim_spec,
};

verus! {

/// `t` stands at position `i` of `cs`.
pub open spec fn stands_at(cs: Seq<char>, i: int, t: Seq<char>) -> bool {
    0 <= i && i + t.len() <= cs.len() && cs.subrange(i, i + t.len()) == t
}

/// A cell written bare: not empty, no whitespace, no quote.
pub open spec fn bare_token(t: Seq<char>) -> bool {
    t.len() > 0 && forall|k: int| 0 <= k < t.len() ==> !is_ws(#[trigger] t[k]) && t[k] != '"'
}

/// A cell as a row holds it once written.
pub open spec fn written_cell(t: Seq<char>) -> bool {
    bare_token(t) || exists|s: Seq<char>| t == seq!['"'] + double_quotes(s) + seq!['"']
}

/// After a cell comes whitespace or the end of the line.
pub open spec fn ends_cell(cs: Seq<char>, i: int) -> bool {
    i == cs.len() || (0 <= i < cs.len() && is_ws(cs[i]))
}

proof fn lemma_scan_bare(cs: Seq<char>, i: int, t: Seq<char>, k: int, buf: Seq<char>, cells: Seq<Seq<char>>)
    requires
        stands_at(cs, i, t),
        forall|j: int| 0 <= j < t.len() ==> !is_ws(#[trigger] t[j]) && t[j] != '"',
        0 <= k <= t.len(),
    ensures
        split_from(cs, i + k, false, buf, cells) == split_from(cs, i + t.len(), false, buf + t.subrange(k, t.len() as int), cells),
    decreases t.len() - k,
{
    if k < t.len() {
        assert(cs[i + k] == t[k]);
        lemma_scan_bare(cs, i, t, k + 1, buf.push(t[k]), cells);
        assert(buf.push(t[k]) + t.subrange(k + 1, t.len() as int) =~= buf + t.subrange(k, t.len() as int));
    } else {
        assert(buf + t.subrange(k, t.len() as int) =~= buf);
    }
}

proof fn lemma_double_quotes_no_ws(s: Seq<char>)
    ensures
        forall|j: int| 0 <= j < double_quotes(s).len() ==> (#[trigger] double_quotes(s)[j] == '"'
            || exists|m: int| 0 <= m < s.len() && double_quotes(s)[j] == s[m]),
    decreases s.len(),
{
    if s.len() > 0 {
        lemma_double_quotes_no_ws(s.drop_first());
        let d = double_quotes(s);
        let r = double_quotes(s.drop_first());
        let h: int = if s[0] == '"' { 2 } else { 1 };
        assert forall|j: int| 0 <= j < d.len() implies (#[trigger] d[j] == '"' || exists|m: int|
            0 <= m < s.len() && d[j] == s[m]) by {
            if j >= h {
                assert(d[j] == r[j - h]);
                if r[j - h] != '"' {
                    let m = choose|m: int| 0 <= m < s.drop_first().len() && r[j - h] == s.drop_first()[m];
                    assert(s[m + 1] == d[j]);
                }
            } else if s[0] != '"' {
                assert(d[j] == s[0]);
            }
        }
    }
}

proof fn lemma_scan_quoted_inner(cs: Seq<char>, i: int, s: Seq<char>, buf: Seq<char>, cells: Seq<Seq<char>>)
    requires
        stands_at(cs, i, double_quotes(s) + seq!['"']),
        ends_cell(cs, i + double_quotes(s).len() + 1),
    ensures
        split_from(cs, i, true, buf, cells) == split_from(
            cs,
            i + double_quotes(s).len() + 1,
            false,
            buf + double_quotes(s) + seq!['"'],
            cells,
        ),
    decreases s.len(),
{
    let d = double_quotes(s);
    if s.len() == 0 {
        assert(cs[i] == (d + seq!['"'])[0]);
        assert(d.len() == 0);
        assert(buf + d + seq!['"'] =~= buf.push('"'));
    } else {
        let rest = s.drop_first();
        let dr = double_quotes(rest);
        if s[0] == '"' {
            assert(d == seq!['"', '"'] + dr);
            assert(cs[i] == (d + seq!['"'])[0]);
            assert(cs[i + 1] == (d + seq!['"'])[1]);
            assert(cs.subrange(i + 2, i + 2 + dr.len() + 1) =~= dr + seq!['"']) by {
                assert forall|j: int| 0 <= j < dr.len() + 1 implies cs.subrange(i + 2, i + 2 + dr.len() + 1)[j]
                    == (dr + seq!['"'])[j] by {
                    assert(cs.subrange(i, i + d.len() + 1)[j + 2] == (d + seq!['"'])[j + 2]);
                }
            }
            lemma_scan_quoted_inner(cs, i + 2, rest, buf.push('"').push('"'), cells);
            assert(buf.push('"').push('"') + dr + seq!['"'] =~= buf + d + seq!['"']);
        } else {
            assert(d == seq![s[0]] + dr);
            assert(cs[i] == (d + seq!['"'])[0]);
            assert(cs.subrange(i + 1, i + 1 + dr.len() + 1) =~= dr + seq!['"']) by {
                assert forall|j: int| 0 <= j < dr.len() + 1 implies cs.subrange(i + 1, i + 1 + dr.len() + 1)[j]
                    == (dr + seq!['"'])[j] by {
                    assert(cs.subrange(i, i + d.len() + 1)[j + 1] == (d + seq!['"'])[j + 1]);
                }
            }
            lemma_scan_quoted_inner(cs, i + 1, rest, buf.push(s[0]), cells);
            assert(buf.push(s[0]) + dr + seq!['"'] =~= buf + d + seq!['"']);
        }
    }
}

/// Scanning a written cell from a cell start leaves exactly that cell in
/// the buffer.
proof fn lemma_scan_cell(cs: Seq<char>, i: int, t: Seq<char>, cells: Seq<Seq<char>>)
    requires
        written_cell(t),
        stands_at(cs, i, t),
        ends_cell(cs, i + t.len()),
    ensures
        split_from(cs, i, false, Seq::empty(), cells) == split_from(cs, i + t.len(), false, t, cells),
{
    if bare_token(t) {
        lemma_scan_bare(cs, i, t, 0, Seq::empty(), cells);
        assert(Seq::<char>::empty() + t.subrange(0, t.len() as int) =~= t);
    } else {
        let s = choose|s: Seq<char>| t == seq!['"'] + double_quotes(s) + seq!['"'];
        let d = double_quotes(s);
        assert(cs[i] == t[0]);
        assert(cs.subrange(i + 1, i + 1 + d.len() + 1) =~= d + seq!['"']) by {
            assert forall|j: int| 0 <= j < d.len() + 1 implies cs.subrange(i + 1, i + 1 + d.len() + 1)[j]
                == (d + seq!['"'])[j] by {
                assert(cs.subrange(i, i + t.len())[j + 1] == t[j + 1]);
            }
        }
        lemma_scan_quoted_inner(cs, i + 1, s, seq!['"'], cells);
        assert(seq!['"'] + d + seq!['"'] =~= t);
    }
}

/// A run of `n` whitespace characters ends the cell in the buffer (if any).
proof fn lemma_scan_ws(cs: Seq<char>, i: int, n: int, buf: Seq<char>, cells: Seq<Seq<char>>)
    requires
        0 <= i,
        0 <= n,
        i + n <= cs.len(),
        forall|j: int| i <= j < i + n ==> is_ws(#[trigger] cs[j]),
        n > 0 || buf.len() == 0,
    ensures
        split_from(cs, i, false, buf, cells) == split_from(
            cs,
            i + n,
            false,
            Seq::empty(),
            if buf.len() > 0 {
                cells.push(buf)
            } else {
                cells
            },
        ),
    decreases n,
{
    if n > 0 {
        assert(is_ws(cs[i]));
        if buf.len() > 0 {
            lemma_scan_ws(cs, i + 1, n - 1, Seq::empty(), cells.push(buf));
        } else {
            lemma_scan_ws(cs, i + 1, n - 1, buf, cells);
        }
    } else {
        assert(buf =~= Seq::<char>::empty());
    }
}

pub open spec fn all_written(row: Seq<Seq<char>>) -> bool {
    forall|k: int| 0 <= k < row.len() ==> written_cell(#[trigger] row[k])
}

proof fn lemma_spaces_ws(n: int)
    ensures
        forall|j: int| 0 <= j < spaces(n).len() ==> is_ws(#[trigger] spaces(n)[j]),
{
}

/// Splitting the written cells `idx..` of a row, from a cell start, gives
/// those cells.
proof fn lemma_split_cells(cs: Seq<char>, q: int, row: Seq<Seq<char>>, t: Seq<Seq<Seq<char>>>, idx: int, cells: Seq<Seq<char>>)
    requires
        all_written(row),
        0 <= idx <= row.len(),
        0 <= q,
        cs.subrange(q, cs.len() as int) == render_cells(row, t, idx),
        q <= cs.len(),
    ensures
        split_from(cs, q, false, Seq::empty(), cells) == cells + row.subrange(idx, row.len() as int),
    decreases row.len() - idx,
{
    let l = render_cells(row, t, idx);
    if idx >= row.len() {
        assert(l.len() == 0);
        assert(q == cs.len());
        assert(cells + row.subrange(idx, row.len() as int) =~= cells);
    } else {
        let sep: Seq<char> = if idx > 0 { seq![' ', ' '] } else { Seq::empty() };
        let tok = row[idx];
        let pad: Seq<char> = if idx + 1 == row.len() {
            Seq::empty()
        } else {
            spaces(crate::snx::width_upto(t, idx, t.len() as int) - row[idx].len())
        };
        let rest = render_cells(row, t, idx + 1);
        assert(l == sep + tok + pad + rest);
        let s0 = q;
        let s1 = q + sep.len();
        let s2 = s1 + tok.len();
        let s3 = s2 + pad.len();
        assert(forall|j: int| s0 <= j < s1 ==> is_ws(#[trigger] cs[j])) by {
            assert forall|j: int| s0 <= j < s1 implies is_ws(#[trigger] cs[j]) by {
                assert(cs.subrange(q, cs.len() as int)[j - q] == l[j - q]);
            }
        }
        lemma_scan_ws(cs, s0, s1 - s0, Seq::empty(), cells);
        assert(stands_at(cs, s1, tok)) by {
            assert(cs.subrange(s1, s2) =~= tok) by {
                assert forall|j: int| 0 <= j < tok.len() implies cs.subrange(s1, s2)[j] == tok[j] by {
                    assert(cs.subrange(q, cs.len() as int)[s1 - q + j] == l[s1 - q + j]);
                }
            }
        }
        lemma_spaces_ws(crate::snx::width_upto(t, idx, t.len() as int) - row[idx].len());
        if idx + 1 == row.len() {
            assert(rest.len() == 0);
            assert(s2 == cs.len());
            lemma_scan_cell(cs, s1, tok, cells);
            assert(split_from(cs, s2, false, tok, cells) == cells.push(tok)) by {
                assert(tok.len() > 0) by {
                    if !bare_token(tok) {
                        let s = choose|s: Seq<char>| tok == seq!['"'] + double_quotes(s) + seq!['"'];
                    }
                }
            }
            assert(cells.push(tok) =~= cells + row.subrange(idx, row.len() as int));
        } else {
            let rsep = seq![' ', ' '];
            assert(rest == rsep + row[idx + 1] + (if idx + 2 == row.len() {
                Seq::empty()
            } else {
                spaces(crate::snx::width_upto(t, idx + 1, t.len() as int) - row[idx + 1].len())
            }) + render_cells(row, t, idx + 2));
            assert(forall|j: int| s2 <= j < s3 + 2 ==> is_ws(#[trigger] cs[j])) by {
                assert forall|j: int| s2 <= j < s3 + 2 implies is_ws(#[trigger] cs[j]) by {
                    assert(cs.subrange(q, cs.len() as int)[j - q] == l[j - q]);
                    if j < s3 {
                        assert(l[j - q] == pad[j - s2]);
                    } else {
                        assert(l[j - q] == rest[j - s3]);
                        assert(rest[j - s3] == rsep[j - s3]);
                    }
                }
            }
            assert(ends_cell(cs, s2)) by {
                assert(is_ws(cs[s2]));
            }
            lemma_scan_cell(cs, s1, tok, cells);
            assert(tok.len() > 0) by {
                if !bare_token(tok) {
                    let s = choose|s: Seq<char>| tok == seq!['"'] + double_quotes(s) + seq!['"'];
                }
            }
            lemma_scan_ws(cs, s2, s3 + 2 - s2, tok, cells);
            lemma_scan_ws(cs, s3, 2, Seq::empty(), cells.push(tok));
            assert(cs.subrange(s3, cs.len() as int) =~= rest) by {
                assert forall|j: int| 0 <= j < rest.len() implies cs.subrange(s3, cs.len() as int)[j] == rest[j] by {
                    assert(cs.subrange(q, cs.len() as int)[s3 - q + j] == l[s3 - q + j]);
                }
            }
            lemma_split_cells(cs, s3, row, t, idx + 1, cells.push(tok));
            assert(cells.push(tok) + row.subrange(idx + 1, row.len() as int) =~= cells + row.subrange(
                idx,
                row.len() as int,
            ));
        }
    }
}

/// A written row line splits back into its cells.
pub proof fn lemma_split_written_row(row: Seq<Seq<char>>, t: Seq<Seq<Seq<char>>>)
    requires
        all_written(row),
    ensures
        split_row_spec(render_cells(row, t, 0)) == row,
{
    let cs = render_cells(row, t, 0);
    assert(cs.subrange(0, cs.len() as int) =~= cs);
    lemma_split_cells(cs, 0, row, t, 0, Seq::empty());
    assert(Seq::<Seq<char>>::empty() + row.subrange(0, row.len() as int) =~= row);
}

pub open spec fn no_newline(s: Seq<char>) -> bool {
    forall|j: int| 0 <= j < s.len() ==> #[trigger] s[j] != '\n'
}

proof fn lemma_encoded_cell(c: Seq<char>)
    requires
        no_newline(c),
    ensures
        written_cell(encode_cell_spec(c)),
        no_newline(encode_cell_spec(c)),
{
    let e = encode_cell_spec(c);
    if c.len() == 0 {
        let empty = Seq::<char>::empty();
        assert(double_quotes(empty) =~= empty);
        assert(e =~= seq!['"'] + double_quotes(empty) + seq!['"']);
    } else if has_ws_or_quote(c) {
        lemma_double_quotes_no_ws(c);
        let d = double_quotes(c);
        assert forall|j: int| 0 <= j < e.len() implies #[trigger] e[j] != '\n' by {
            if 0 < j < e.len() - 1 {
                assert(e[j] == d[j - 1]);
                if d[j - 1] != '"' {
                    let m = choose|m: int| 0 <= m < c.len() && d[j - 1] == c[m];
                }
            }
        }
    } else {
        assert(bare_token(c));
    }
}

proof fn lemma_cells_no_newline(row: Seq<Seq<char>>, t: Seq<Seq<Seq<char>>>, idx: int)
    requires
        forall|k: int| 0 <= k < row.len() ==> no_newline(#[trigger] row[k]),
        0 <= idx,
    ensures
        no_newline(render_cells(row, t, idx)),
    decreases row.len() - idx,
{
    if idx < row.len() {
        lemma_cells_no_newline(row, t, idx + 1);
        let sep: Seq<char> = if idx > 0 { seq![' ', ' '] } else { Seq::empty() };
        let pad: Seq<char> = if idx + 1 == row.len() {
            Seq::empty()
        } else {
            spaces(crate::snx::width_upto(t, idx, t.len() as int) - row[idx].len())
        };
        let l = render_cells(row, t, idx);
        let rest = render_cells(row, t, idx + 1);
        assert(l == sep + row[idx] + pad + rest);
        assert forall|j: int| 0 <= j < l.len() implies #[trigger] l[j] != '\n' by {
            let a = sep.len() as int;
            let b = a + row[idx].len();
            let c = b + pad.len();
            if j < a {
            } else if j < b {
                assert(l[j] == row[idx][j - a]);
            } else if j < c {
                assert(l[j] == pad[j - b]);
            } else {
                assert(l[j] == rest[j - c]);
            }
        }
    }
}

/// A written table: every row of written cells without newlines, the
/// first cell of every row not empty.
pub open spec fn written_table(t: Seq<Seq<Seq<char>>>) -> bool {
    &&& forall|r: int| 0 <= r < t.len() ==> all_written(#[trigger] t[r])
    &&& forall|r: int| 0 <= r < t.len() ==> (#[trigger] t[r]).len() > 0
    &&& forall|r: int, k: int| 0 <= r < t.len() && 0 <= k < t[r].len() ==> no_newline(#[trigger] t[r][k])
}

proof fn lemma_written_first_char(t: Seq<char>)
    requires
        written_cell(t),
    ensures
        t.len() > 0,
        !is_ws(t[0]),
{
    if !bare_token(t) {
        let s = choose|s: Seq<char>| t == seq!['"'] + double_quotes(s) + seq!['"'];
        assert(t[0] == '"');
    }
}

proof fn lemma_line_shape(t: Seq<Seq<Seq<char>>>, r: int)
    requires
        written_table(t),
        0 <= r < t.len(),
    ensures
        render_cells(t[r], t, 0).len() > 0,
        !is_ws(render_cells(t[r], t, 0)[0]),
        no_newline(render_cells(t[r], t, 0)),
{
    let row = t[r];
    assert(row.len() > 0);
    assert(written_cell(row[0]));
    lemma_written_first_char(row[0]);
    let l = render_cells(row, t, 0);
    let pad: Seq<char> = if 1 == row.len() {
        Seq::empty()
    } else {
        spaces(crate::snx::width_upto(t, 0, t.len() as int) - row[0].len())
    };
    assert(l == Seq::<char>::empty() + row[0] + pad + render_cells(row, t, 1));
    assert(l[0] == row[0][0]);
    assert forall|k: int| 0 <= k < row.len() implies no_newline(#[trigger] row[k]) by {
        assert(no_newline(t[r][k]));
    }
    lemma_cells_no_newline(row, t, 0);
}

pub open spec fn table_lines(t: Seq<Seq<Seq<char>>>, k: int) -> Seq<Seq<char>> {
    Seq::new((t.len() - k) as nat, |j: int| render_cells(t[k + j], t, 0))
}

proof fn lemma_rows_split(t: Seq<Seq<Seq<char>>>, k: int)
    requires
        written_table(t),
        0 <= k < t.len(),
    ensures
        render_rows(t, k).len() > 0,
        render_rows(t, k).last() == '\n',
        split_char(render_rows(t, k).drop_last(), '\n') == table_lines(t, k),
    decreases t.len() - k,
{
    let line = render_cells(t[k], t, 0);
    let rest = render_rows(t, k + 1);
    let all = render_rows(t, k);
    assert(all == line + seq!['\n'] + rest);
    lemma_line_shape(t, k);
    if k + 1 == t.len() {
        assert(rest.len() == 0);
        assert(all.drop_last() =~= line);
        lemma_find_char_absent(line, 0, '\n');
        assert(table_lines(t, k) =~= seq![line]);
    } else {
        lemma_rows_split(t, k + 1);
        let d = all.drop_last();
        assert(d =~= line + seq!['\n'] + rest.drop_last());
        assert forall|j: int| 0 <= j < line.len() implies d[j] != '\n' by {
            assert(d[j] == line[j]);
        }
        assert(d[line.len() as int] == '\n');
        lemma_find_char_first(d, 0, '\n', line.len() as int);
        assert(d.subrange(0, line.len() as int) =~= line);
        assert(d.skip(line.len() as int + 1) =~= rest.drop_last());
        assert(table_lines(t, k) =~= seq![line] + table_lines(t, k + 1));
        assert(all.last() == rest.last());
    }
}

proof fn lemma_keep_written_lines(t: Seq<Seq<Seq<char>>>, k: int)
    requires
        written_table(t),
        0 <= k <= t.len(),
    ensures
        keep_non_blank(table_lines(t, k)) == table_lines(t, k),
    decreases t.len() - k,
{
    let ls = table_lines(t, k);
    if k < t.len() {
        lemma_keep_written_lines(t, k + 1);
        let l = ls[0];
        lemma_line_shape(t, k);
        lemma_drop_trailing_bounds(l, 0, l.len() as int);
        assert(crate::text::skip_ws(l, 0) == 0);
        assert(trim_spec(l).len() > 0);
        assert(ls.drop_first() =~= table_lines(t, k + 1));
        assert(ls =~= seq![l] + ls.drop_first());
    } else {
        assert(ls =~= Seq::<Seq<char>>::empty());
    }
}

pub open spec fn decoded_row(r: Seq<Seq<char>>) -> Seq<Seq<char>> {
    r.map_values(|c: Seq<char>| decode_cell_spec(c))
}

pub open spec fn encoded_row(r: Seq<Seq<char>>) -> Seq<Seq<char>> {
    r.map_values(|c: Seq<char>| encode_cell_spec(c))
}

/// The rows a block may hold and read back: as many cells as columns,
/// none of them a lone `-` or holding a newline.
pub open spec fn round_trip_rows(ncols: int, rows: Seq<Seq<Seq<char>>>) -> bool {
    &&& forall|r: int| 0 <= r < rows.len() ==> (#[trigger] rows[r]).len() == ncols
    &&& forall|r: int, k: int| 0 <= r < rows.len() && 0 <= k < rows[r].len() ==> #[trigger] rows[r][k] != seq!['-']
    &&& forall|r: int, k: int| 0 <= r < rows.len() && 0 <= k < rows[r].len() ==> no_newline(#[trigger] rows[r][k])
}

/// Column names a header can carry: not empty, no whitespace, no quote.
pub open spec fn header_columns(columns: Seq<Seq<char>>) -> bool {
    columns.len() > 0 && forall|k: int| 0 <= k < columns.len() ==> bare_token(#[trigger] columns[k])
}

proof fn lemma_table_written(columns: Seq<Seq<char>>, rows: Seq<Seq<Seq<char>>>)
    requires
        header_columns(columns),
        round_trip_rows(columns.len() as int, rows),
    ensures
        written_table(table_spec(columns, rows)),
        forall|r: int| 0 < r < table_spec(columns, rows).len() ==> #[trigger] table_spec(columns, rows)[r] == encoded_row(rows[r - 1]),
        table_spec(columns, rows)[0] == columns,
        table_spec(columns, rows).len() == rows.len() + 1,
{
    let t = table_spec(columns, rows);
    assert forall|r: int| 0 < r < t.len() implies #[trigger] t[r] == encoded_row(rows[r - 1]) by {}
    assert forall|r: int, k: int| 0 <= r < t.len() && 0 <= k < t[r].len() implies no_newline(#[trigger] t[r][k])
        && written_cell(t[r][k]) by {
        if r == 0 {
            assert(bare_token(columns[k]));
        } else {
            assert(t[r][k] == encode_cell_spec(rows[r - 1][k]));
            assert(no_newline(rows[r - 1][k]));
            lemma_encoded_cell(rows[r - 1][k]);
        }
    }
    assert forall|r: int| 0 <= r < t.len() implies all_written(#[trigger] t[r]) by {
        assert forall|k: int| 0 <= k < t[r].len() implies written_cell(#[trigger] t[r][k]) by {
            assert(written_cell(t[r][k]) && no_newline(t[r][k]));
        }
    }
}

proof fn lemma_rows_from_written(
    lines: Seq<Seq<char>>,
    t: Seq<Seq<Seq<char>>>,
    rows: Seq<Seq<Seq<char>>>,
    ncols: int,
    k: int,
)
    requires
        lines == table_lines(t, 0),
        t.len() == rows.len() + 1,
        written_table(t),
        round_trip_rows(ncols, rows),
        forall|r: int| 0 < r < t.len() ==> #[trigger] t[r] == encoded_row(rows[r - 1]),
        1 <= k <= t.len(),
    ensures
        rows_from(lines, k, ncols, rows.take(k - 1)) == TsvParse::Rows(rows),
    decreases t.len() - k,
{
    if k < t.len() {
        let enc = t[k];
        assert(lines[k] == render_cells(t[k], t, 0));
        lemma_split_written_row(enc, t);
        let row = rows[k - 1];
        assert(enc.len() == ncols);
        assert(decoded_row(enc) =~= row) by {
            assert forall|j: int| 0 <= j < row.len() implies decoded_row(enc)[j] == row[j] by {
                assert(enc[j] == encode_cell_spec(row[j]));
                assert(row[j] != seq!['-']);
                lemma_cell_round_trip(row[j]);
            }
        }
        assert(rows.take(k - 1).push(row) =~= rows.take(k));
        lemma_rows_from_written(lines, t, rows, ncols, k + 1);
    } else {
        assert(rows.take(k - 1) =~= rows);
    }
}

/// Reading a written block gives back the rows that were written, given
/// column names that are single words and cells that are neither a lone
/// `-` (read back as empty) nor hold a newline (which would split the
/// row's line).
pub proof fn lemma_tsv_round_trip(columns: Seq<Seq<char>>, rows: Seq<Seq<Seq<char>>>)
    requires
        header_columns(columns),
        round_trip_rows(columns.len() as int, rows),
    ensures
        parse_block_spec(write_block_spec(columns, rows), columns) == TsvParse::Rows(rows),
{
    let t = table_spec(columns, rows);
    lemma_table_written(columns, rows);
    let content = write_block_spec(columns, rows);
    assert(content == render_rows(t, 0));
    lemma_rows_split(t, 0);
    lemma_line_shape(t, 0);
    let line0 = render_cells(t[0], t, 0);
    assert(content =~= line0 + seq!['\n'] + render_rows(t, 1));
    assert(content[0] == line0[0]);
    assert(skip_newlines(content, 0) == 0);
    let n = content.len() as int;
    assert(content[n - 1] == '\n');
    assert(content[n - 2] != '\n') by {
        let lines = table_lines(t, 0);
        let d = content.drop_last();
        assert(split_char(d, '\n') == lines);
        let last = render_cells(t[t.len() - 1], t, 0);
        lemma_line_shape(t, t.len() - 1);
        lemma_last_line_at_end(t, 0);
    }
    assert(drop_trailing_newlines(content, n - 1) == n - 1);
    assert(strip_newlines(content) =~= content.drop_last());
    let stripped = strip_newlines(content);
    assert(stripped[0] == line0[0]);
    lemma_drop_trailing_bounds(stripped, 0, stripped.len() as int);
    assert(trim_spec(stripped).len() > 0);
    lemma_keep_written_lines(t, 0);
    let lines = block_lines(content);
    assert(lines == table_lines(t, 0));
    assert(lines[0] == line0);
    lemma_split_written_row(t[0], t);
    assert(rows.take(0) =~= Seq::<Seq<Seq<char>>>::empty());
    lemma_rows_from_written(lines, t, rows, columns.len() as int, 1);
}

/// The text of rows `k..` ends with the last line's last character and a
/// newline.
proof fn lemma_last_line_at_end(t: Seq<Seq<Seq<char>>>, k: int)
    requires
        written_table(t),
        0 <= k < t.len(),
    ensures
        render_rows(t, k).len() >= 2,
        render_rows(t, k)[render_rows(t, k).len() - 2] == render_cells(t[t.len() - 1], t, 0).last(),
    decreases t.len() - k,
{
    let line = render_cells(t[k], t, 0);
    let rest = render_rows(t, k + 1);
    assert(render_rows(t, k) == line + seq!['\n'] + rest);
    lemma_line_shape(t, k);
    if k + 1 < t.len() {
        lemma_last_line_at_end(t, k + 1);
    } else {
        assert(rest.len() == 0);
    }
}


/// Where cell `j` of every line starts: the widths of the columns before
/// it, each followed by two spaces.
pub open spec fn col_offset(t: Seq<Seq<Seq<char>>>, j: int) -> int
    decreases j,
{
    if j <= 0 {
        0
    } else {
        col_offset(t, j - 1) + width_upto(t, j - 1, t.len() as int) + 2
    }
}

proof fn lemma_width_covers(t: Seq<Seq<Seq<char>>>, idx: int, m: int, r: int)
    requires
        0 <= r < m <= t.len(),
        0 <= idx < t[r].len(),
    ensures
        t[r][idx].len() <= width_upto(t, idx, m),
    decreases m,
{
    if r < m - 1 {
        lemma_width_covers(t, idx, m - 1, r);
    }
}

proof fn lemma_offsets_grow(t: Seq<Seq<Seq<char>>>, j: int, k: int)
    requires
        0 <= j <= k,
    ensures
        col_offset(t, j) <= col_offset(t, k),
        j < k ==> col_offset(t, j) + width_upto(t, j, t.len() as int) + 2 <= col_offset(t, k),
    decreases k,
{
    if j < k {
        lemma_offsets_grow(t, j, k - 1);
    }
}

/// The cells `idx..` of a row, as rendered: each cell at its column's
/// offset (shifted by where the rendering starts), spaces up to the next
/// cell, nothing after the last cell.
proof fn lemma_cells_layout(row: Seq<Seq<char>>, t: Seq<Seq<Seq<char>>>, idx: int)
    requires
        0 <= idx < row.len(),
        forall|k: int| 0 <= k < row.len() - 1 ==> (#[trigger] row[k]).len() <= width_upto(t, k, t.len() as int),
    ensures
        ({
            let s = render_cells(row, t, idx);
            let base = (if idx > 0 { 2int } else { 0int }) - col_offset(t, idx);
            &&& s.len() == base + col_offset(t, row.len() - 1) + row[row.len() - 1].len()
            &&& idx > 0 ==> s[0] == ' ' && s[1] == ' '
            &&& forall|j: int| idx <= j < row.len() ==> s.subrange(
                base + col_offset(t, j),
                base + col_offset(t, j) + row[j].len(),
            ) == #[trigger] row[j]
            &&& forall|j: int, p: int|
                idx <= j < row.len() - 1 && base + col_offset(t, j) + row[j].len() <= p < base
                    + col_offset(t, j + 1) ==> #[trigger] s[p] == ' ' && #[trigger] row[j] == row[j]
        }),
    decreases row.len() - idx,
{
    let s = render_cells(row, t, idx);
    let sep: Seq<char> = if idx > 0 { seq![' ', ' '] } else { Seq::empty() };
    let l = sep.len() as int;
    let base = l - col_offset(t, idx);
    if idx + 1 == row.len() {
        assert(s == sep + row[idx] + Seq::<char>::empty() + render_cells(row, t, idx + 1));
        assert(render_cells(row, t, idx + 1) =~= Seq::<char>::empty());
        assert(s =~= sep + row[idx]);
        assert(s.subrange(l, l + row[idx].len()) =~= row[idx]);
    } else {
        let w = width_upto(t, idx, t.len() as int);
        assert(row[idx].len() <= w);
        let pad = spaces(w - row[idx].len());
        let rest = render_cells(row, t, idx + 1);
        assert(s == sep + row[idx] + pad + rest);
        lemma_cells_layout(row, t, idx + 1);
        assert(col_offset(t, idx + 1) == col_offset(t, idx) + w + 2);
        let head = sep + row[idx] + pad;
        assert(head.len() == l + w);
        assert(s =~= head + rest);
        assert forall|q: int| 0 <= q < rest.len() implies s[l + w + q] == rest[q] by {}
        assert forall|j: int| idx <= j < row.len() implies s.subrange(
            base + col_offset(t, j),
            base + col_offset(t, j) + row[j].len(),
        ) == #[trigger] row[j] by {
            if j == idx {
                assert(s.subrange(l, l + row[idx].len()) =~= row[idx]);
            } else {
                let a = base + col_offset(t, j);
                let a2 = 2 - col_offset(t, idx + 1) + col_offset(t, j);
                lemma_offsets_grow(t, idx + 1, j);
                lemma_offsets_grow(t, j, row.len() - 1);
                if j < row.len() - 1 {
                    assert(row[j].len() <= width_upto(t, j, t.len() as int));
                }
                assert(a == l + w + a2);
                assert(rest.subrange(a2, a2 + row[j].len()) == row[j]);
                assert(s.subrange(a, a + row[j].len()) =~= rest.subrange(a2, a2 + row[j].len()));
            }
        }
        assert forall|j: int, p: int|
            idx <= j < row.len() - 1 && base + col_offset(t, j) + row[j].len() <= p < base + col_offset(t, j + 1)
            implies #[trigger] s[p] == ' ' && #[trigger] row[j] == row[j] by {
            if j == idx {
                if p < l + w {
                    assert(s[p] == pad[p - l - row[idx].len()]);
                } else {
                    assert(s[p] == rest[p - l - w]);
                }
            } else {
                let p2 = p - l - w;
                lemma_offsets_grow(t, idx + 1, j);
                lemma_offsets_grow(t, j + 1, row.len() - 1);
                assert(s[p] == rest[p2]);
                assert(rest[p2] == ' ');
            }
        }
        if idx > 0 {
            assert(s[0] == sep[0]);
            assert(s[1] == sep[1]);
        }
    }
}

/// An encoded cell is never empty and never ends in whitespace.
proof fn lemma_encoded_cell_end(c: Seq<char>)
    ensures
        encode_cell_spec(c).len() > 0,
        !is_ws(encode_cell_spec(c).last()),
{
    let e = encode_cell_spec(c);
    if c.len() > 0 && !has_ws_or_quote(c) {
        assert(!is_ws(c[c.len() - 1]));
    } else if c.len() > 0 {
        assert(e == seq!['"'] + double_quotes(c) + seq!['"']);
        assert(e.last() == '"');
    }
}

/// A written block lines its columns up: on every line of the table (the
/// header first, then each row with its cells encoded), cell `j` starts at
/// `col_offset(t, j)`, the sum of the widths of the columns before it plus
/// two spaces each; the gap up to the next cell holds spaces only; the line
/// ends with its last cell, and a row's last cell ends in a character
/// other than whitespace. The block is these lines, each ended by a newline.
pub proof fn lemma_tsv_columns_aligned(columns: Seq<Seq<char>>, rows: Seq<Seq<Seq<char>>>)
    requires
        columns.len() > 0,
        forall|r: int| 0 <= r < rows.len() ==> (#[trigger] rows[r]).len() == columns.len(),
    ensures
        ({
            let t = table_spec(columns, rows);
            let n = columns.len() as int;
            &&& write_block_spec(columns, rows) == render_rows(t, 0)
            &&& t.len() == rows.len() + 1
            &&& forall|r: int| 0 <= r < t.len() ==> (#[trigger] t[r]).len() == n
            &&& forall|r: int, j: int| 0 <= r < t.len() && 0 <= j < n ==> render_cells(t[r], t, 0).subrange(
                col_offset(t, j),
                col_offset(t, j) + t[r][j].len(),
            ) == #[trigger] t[r][j]
            &&& forall|r: int, j: int, p: int|
                0 <= r < t.len() && 0 <= j < n - 1 && col_offset(t, j) + t[r][j].len() <= p < col_offset(t, j + 1)
                    ==> #[trigger] render_cells(t[r], t, 0)[p] == ' ' && #[trigger] t[r][j] == t[r][j]
            &&& forall|r: int| 0 <= r < t.len() ==> (#[trigger] render_cells(t[r], t, 0)).len() == col_offset(t, n - 1)
                + t[r][n - 1].len()
            &&& forall|r: int| 1 <= r < t.len() ==> (#[trigger] t[r])[n - 1].len() > 0 && !is_ws(t[r][n - 1].last())
        }),
{
    let t = table_spec(columns, rows);
    let n = columns.len() as int;
    assert(t[0] == columns);
    assert forall|r: int| 0 <= r < t.len() implies (#[trigger] t[r]).len() == n by {
        if r > 0 {
            assert(t[r] == rows[r - 1].map_values(|c: Seq<char>| encode_cell_spec(c)));
        }
    }
    assert forall|r: int| #![trigger t[r]] 0 <= r < t.len() implies ({
        let s = render_cells(t[r], t, 0);
        &&& s.len() == col_offset(t, n - 1) + t[r][n - 1].len()
        &&& forall|j: int| 0 <= j < n ==> s.subrange(col_offset(t, j), col_offset(t, j) + t[r][j].len())
            == #[trigger] t[r][j]
        &&& forall|j: int, p: int|
            0 <= j < n - 1 && col_offset(t, j) + t[r][j].len() <= p < col_offset(t, j + 1) ==> #[trigger] s[p]
                == ' ' && #[trigger] t[r][j] == t[r][j]
    }) by {
        assert forall|k: int| 0 <= k < t[r].len() - 1 implies (#[trigger] t[r][k]).len() <= width_upto(
            t,
            k,
            t.len() as int,
        ) by {
            lemma_width_covers(t, k, t.len() as int, r);
        }
        lemma_cells_layout(t[r], t, 0);
    }
    assert forall|r: int| 1 <= r < t.len() implies (#[trigger] t[r])[n - 1].len() > 0 && !is_ws(
        t[r][n - 1].last(),
    ) by {
        assert(t[r][n - 1] == encode_cell_spec(rows[r - 1][n - 1]));
        lemma_encoded_cell_end(rows[r - 1][n - 1]);
    }
}

} // verus!
