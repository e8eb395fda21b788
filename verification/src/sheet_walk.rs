//! Walking a schematic hierarchy: what one sheet file says about itself
//! (its top-level symbols, wires and labels, and the sheet files it
//! names), and the order in which the files are visited.

use vstd::prelude::*;

use crate::error::ParseError;
use crate::project::SheetEntry;
use crate::text::{chars_eq, chars_of, decimal, slice_chars, str_eq, string_from_chars, trim_chars, trim_spec};

verus! {

broadcast use vstd::std_specs::vec::group_vec_axioms;

/// Files deeper than this in the hierarchy are not visited.
pub const MAX_SHEET_DEPTH: usize = 32;

/// Files larger than this (100 MiB) are refused.
pub const MAX_FILE_SIZE: u64 = 104857600;

// ---------------------------------------------------------------------------
// Text helpers
// ---------------------------------------------------------------------------

pub open spec fn starts_with(s: Seq<char>, p: Seq<char>) -> bool {
    p.len() <= s.len() && s.subrange(0, p.len() as int) == p
}

pub open spec fn occurs_at(s: Seq<char>, p: Seq<char>, i: int) -> bool {
    0 <= i && i + p.len() <= s.len() && s.subrange(i, i + p.len()) == p
}

pub open spec fn contains_seq(s: Seq<char>, p: Seq<char>) -> bool {
    exists|i: int| #[trigger] occurs_at(s, p, i)
}

/// Index of the last `c` in `s`.
pub open spec fn last_index(s: Seq<char>, c: char) -> Option<int>
    decreases s.len(),
{
    if s.len() == 0 {
        None
    } else if s.last() == c {
        Some(s.len() - 1)
    } else {
        last_index(s.drop_last(), c)
    }
}

fn occurs_at_exec(s: &[char], p: &[char], i: usize) -> (r: bool)
    ensures
        r == occurs_at(s@, p@, i as int),
{
    if i > s.len() || p.len() > s.len() - i {
        return false;
    }
    let end = i + p.len();
    let mut j: usize = i;
    while j < end
        invariant
            i <= j <= end,
            end == i + p@.len(),
            end <= s@.len(),
            forall|q: int| i <= q < j ==> s@[q] == p@[q - i],
        decreases end - j,
    {
        if s[j] != p[j - i] {
            assert(s@.subrange(i as int, i + p@.len())[j - i] != p@[j - i]);
            return false;
        }
        j += 1;
    }
    assert(s@.subrange(i as int, i + p@.len()) =~= p@);
    true
}

fn starts_with_exec(s: &[char], p: &str) -> (r: bool)
    ensures
        r == starts_with(s@, p@),
{
    let pc = chars_of(p);
    let r = occurs_at_exec(s, pc.as_slice(), 0);
    r
}

fn contains_exec(s: &[char], p: &str) -> (r: bool)
    ensures
        r == contains_seq(s@, p@),
{
    let pc = chars_of(p);
    let mut i: usize = 0;
    while i < s.len()
        invariant
            i <= s@.len(),
            pc@ == p@,
            forall|j: int| 0 <= j < i ==> !occurs_at(s@, p@, j),
        decreases s.len() - i,
    {
        if occurs_at_exec(s, pc.as_slice(), i) {
            return true;
        }
        i += 1;
    }
    if occurs_at_exec(s, pc.as_slice(), s.len()) {
        return true;
    }
    assert forall|j: int| !(#[trigger] occurs_at(s@, p@, j)) by {
        if j > s@.len() {
            assert(!occurs_at(s@, p@, j));
        }
    }
    false
}

proof fn lemma_last_index_bounds(s: Seq<char>, c: char)
    ensures
        last_index(s, c) matches Some(i) ==> 0 <= i < s.len() && s[i] == c,
    decreases s.len(),
{
    if s.len() > 0 && s.last() != c {
        lemma_last_index_bounds(s.drop_last(), c);
    }
}

fn last_index_exec(s: &[char], n: usize, c: char) -> (r: Option<usize>)
    requires
        n <= s.len(),
    ensures
        match last_index(s@.take(n as int), c) {
            Some(i) => r == Some(i as usize),
            None => r is None,
        },
{
    let mut k = n;
    while k > 0 && s[k - 1] != c
        invariant
            k <= n <= s@.len(),
            last_index(s@.take(k as int), c) == last_index(s@.take(n as int), c),
        decreases k,
    {
        assert(s@.take(k as int).drop_last() =~= s@.take(k - 1));
        k -= 1;
    }
    if k == 0 {
        assert(s@.take(0) =~= Seq::<char>::empty());
        None
    } else {
        Some(k - 1)
    }
}

// ---------------------------------------------------------------------------
// Scanning one sheet
// ---------------------------------------------------------------------------

/// Where the scan of a sheet's text stands.
pub struct ScanView {
    pub symbols: nat,
    pub wires: nat,
    pub labels: nat,
    pub children: Seq<Seq<char>>,
    /// Parenthesis depth outside quoted strings.
    pub depth: nat,
    pub in_string: bool,
    /// Where the current line starts.
    pub line_start: int,
}

/// The sheet file named on a line holding `"Sheetfile"`: the text between
/// the line's last two quotes, unless empty or `Sheetfile` itself.
pub open spec fn sheetfile_child(t: Seq<char>) -> Option<Seq<char>> {
    if !contains_seq(t, "\"Sheetfile\""@) {
        None
    } else {
        match last_index(t, '"') {
            None => None,
            Some(e) => match last_index(t.take(e), '"') {
                None => None,
                Some(b) => {
                    let f = t.subrange(b + 1, e);
                    if f.len() > 0 && f != "Sheetfile"@ {
                        Some(f)
                    } else {
                        None
                    }
                },
            },
        }
    }
}

/// Judges a finished line: at depth 1 or 2 a `(symbol` that is not a
/// power symbol, a `(wire` or a label counts; a `"Sheetfile"` line names
/// a child sheet.
pub open spec fn finish_line(st: ScanView, line: Seq<char>, next_start: int) -> ScanView {
    let t = trim_spec(line);
    let top = 1 <= st.depth <= 2;
    let sym = top && starts_with(t, "(symbol"@) && !contains_seq(t, "power:"@);
    let wire = top && !sym && starts_with(t, "(wire"@);
    let label = top && !sym && !wire && (starts_with(t, "(label"@) || starts_with(t, "(global_label"@)
        || starts_with(t, "(hierarchical_label"@));
    ScanView {
        symbols: if sym { st.symbols + 1 } else { st.symbols },
        wires: if wire { st.wires + 1 } else { st.wires },
        labels: if label { st.labels + 1 } else { st.labels },
        children: match sheetfile_child(t) {
            Some(f) => st.children.push(f),
            None => st.children,
        },
        depth: st.depth,
        in_string: st.in_string,
        line_start: next_start,
    }
}

/// One character of a line: quotes open and close strings (a quote after
/// a backslash on the same line does not close one); outside strings
/// parentheses move the depth, never below zero.
pub open spec fn char_step(st: ScanView, c: char, escaped: bool) -> ScanView {
    if st.in_string {
        ScanView { in_string: !(c == '"' && !escaped), ..st }
    } else if c == '"' {
        ScanView { in_string: true, ..st }
    } else if c == '(' {
        ScanView { depth: st.depth + 1, ..st }
    } else if c == ')' {
        ScanView { depth: if st.depth > 0 { (st.depth - 1) as nat } else { 0 }, ..st }
    } else {
        st
    }
}

pub open spec fn scan_init() -> ScanView {
    ScanView { symbols: 0, wires: 0, labels: 0, children: Seq::empty(), depth: 0, in_string: false, line_start: 0 }
}

/// The scan after the first `i` characters of `s`.
pub open spec fn scan_upto(s: Seq<char>, i: int) -> ScanView
    decreases i,
{
    if i <= 0 || i > s.len() {
        scan_init()
    } else {
        let st = scan_upto(s, i - 1);
        let c = s[i - 1];
        if c == '\n' {
            finish_line(st, s.subrange(st.line_start, i - 1), i)
        } else {
            char_step(st, c, i - 1 > st.line_start && s[i - 2] == '\\')
        }
    }
}

/// What a sheet's text says about it: the scan of every line.
pub open spec fn scan_sheet_spec(s: Seq<char>) -> ScanView {
    let st = scan_upto(s, s.len() as int);
    finish_line(st, s.subrange(st.line_start, s.len() as int), s.len() as int)
}

/// What a sheet file holds: its counts and the sheet files it names.
#[derive(Debug, Clone, PartialEq, Eq)]
pub struct SheetScan {
    pub symbols_count: usize,
    pub wires_count: usize,
    pub labels_count: usize,
    pub child_filenames: Vec<String>,
}

pub open spec fn strings_view(v: Seq<String>) -> Seq<Seq<char>> {
    v.map_values(|s: String| s@)
}

proof fn lemma_scan_bounds(s: Seq<char>, i: int)
    requires
        0 <= i <= s.len(),
    ensures
        0 <= scan_upto(s, i).line_start <= i,
        scan_upto(s, i).depth <= i,
        scan_upto(s, i).symbols + scan_upto(s, i).wires + scan_upto(s, i).labels <= scan_upto(s, i).line_start,
    decreases i,
{
    if i > 0 {
        lemma_scan_bounds(s, i - 1);
    }
}

proof fn lemma_finish_empty_line(st: ScanView, n: int)
    ensures
        finish_line(st, Seq::empty(), n).symbols == st.symbols,
        finish_line(st, Seq::empty(), n).wires == st.wires,
        finish_line(st, Seq::empty(), n).labels == st.labels,
        finish_line(st, Seq::empty(), n).children == st.children,
{
    reveal_strlit("(symbol");
    reveal_strlit("(wire");
    reveal_strlit("(label");
    reveal_strlit("(global_label");
    reveal_strlit("(hierarchical_label");
    reveal_strlit("\"Sheetfile\"");
    let e = Seq::<char>::empty();
    assert(trim_spec(e) =~= e);
    assert(!contains_seq(e, "\"Sheetfile\""@));
}

/// Reads one sheet's text (see `scan_sheet_spec`).
pub fn scan_sheet_text(content: &str) -> (r: SheetScan)
    ensures
        ({
            let v = scan_sheet_spec(content@);
            &&& r.symbols_count == v.symbols
            &&& r.wires_count == v.wires
            &&& r.labels_count == v.labels
            &&& strings_view(r.child_filenames@) == v.children
        }),
{
    let s = chars_of(content);
    let mut symbols: usize = 0;
    let mut wires: usize = 0;
    let mut labels: usize = 0;
    let mut children: Vec<String> = Vec::new();
    let mut depth: usize = 0;
    let mut in_string = false;
    let mut line_start: usize = 0;
    let mut i: usize = 0;
    while i < s.len()
        invariant
            i <= s@.len(),
            s@ == content@,
            ({
                let st = scan_upto(s@, i as int);
                &&& symbols == st.symbols
                &&& wires == st.wires
                &&& labels == st.labels
                &&& strings_view(children@) == st.children
                &&& depth == st.depth
                &&& in_string == st.in_string
                &&& line_start == st.line_start
            }),
        decreases s.len() - i,
    {
        proof {
            lemma_scan_bounds(s@, i as int);
        }
        let c = s[i];
        if c == '\n' {
            let line = slice_chars(s.as_slice(), line_start, i);
            let st = finish_line_exec(symbols, wires, labels, &mut children, depth, line.as_slice());
            symbols = st.0;
            wires = st.1;
            labels = st.2;
            line_start = i + 1;
        } else {
            let escaped = i > line_start && s[i - 1] == '\\';
            if in_string {
                if c == '"' && !escaped {
                    in_string = false;
                }
            } else if c == '"' {
                in_string = true;
            } else if c == '(' {
                depth = depth + 1;
            } else if c == ')' {
                if depth > 0 {
                    depth = depth - 1;
                }
            }
        }
        i += 1;
    }
    proof {
        lemma_scan_bounds(s@, i as int);
    }
    if line_start == s.len() {
        proof {
            lemma_finish_empty_line(scan_upto(s@, i as int), s.len() as int);
            assert(s@.subrange(line_start as int, s.len() as int) =~= Seq::<char>::empty());
        }
        return SheetScan { symbols_count: symbols, wires_count: wires, labels_count: labels, child_filenames: children };
    }
    let line = slice_chars(s.as_slice(), line_start, s.len());
    let st = finish_line_exec(symbols, wires, labels, &mut children, depth, line.as_slice());
    SheetScan { symbols_count: st.0, wires_count: st.1, labels_count: st.2, child_filenames: children }
}

fn sheetfile_child_exec(t: &[char]) -> (r: Option<String>)
    ensures
        match sheetfile_child(t@) {
            Some(f) => r matches Some(x) && x@ == f,
            None => r is None,
        },
{
    if !contains_exec(t, "\"Sheetfile\"") {
        return None;
    }
    assert(t@.take(t@.len() as int) =~= t@);
    let e = match last_index_exec(t, t.len(), '"') {
        Some(e) => e,
        None => {
            return None;
        },
    };
    proof {
        lemma_last_index_bounds(t@, '"');
    }
    assert(t@.take(e as int) =~= t@.take(e as int).take(e as int));
    let b = match last_index_exec(t, e, '"') {
        Some(b) => b,
        None => {
            return None;
        },
    };
    proof {
        lemma_last_index_bounds(t@.take(e as int), '"');
    }
    let f = slice_chars(t, b + 1, e);
    let sf = chars_of("Sheetfile");
    if f.len() > 0 && !chars_eq(f.as_slice(), sf.as_slice()) {
        Some(string_from_chars(f.as_slice()))
    } else {
        None
    }
}

/// The counts and child list after judging a finished line (see
/// `finish_line`).
fn finish_line_exec(
    symbols: usize,
    wires: usize,
    labels: usize,
    children: &mut Vec<String>,
    depth: usize,
    line: &[char],
) -> (r: (usize, usize, usize))
    requires
        symbols + wires + labels < usize::MAX,
    ensures
        ({
            let st = ScanView {
                symbols: symbols as nat,
                wires: wires as nat,
                labels: labels as nat,
                children: strings_view(old(children)@),
                depth: depth as nat,
                in_string: false,
                line_start: 0,
            };
            let n = finish_line(st, line@, 0);
            &&& r.0 == n.symbols
            &&& r.1 == n.wires
            &&& r.2 == n.labels
            &&& strings_view(final(children)@) == n.children
        }),
{
    let t = trim_chars(line);
    let top = 1 <= depth && depth <= 2;
    let sym = top && starts_with_exec(t.as_slice(), "(symbol") && !contains_exec(t.as_slice(), "power:");
    let wire = top && !sym && starts_with_exec(t.as_slice(), "(wire");
    let label = top && !sym && !wire && (starts_with_exec(t.as_slice(), "(label") || starts_with_exec(
        t.as_slice(),
        "(global_label",
    ) || starts_with_exec(t.as_slice(), "(hierarchical_label"));
    match sheetfile_child_exec(t.as_slice()) {
        Some(f) => {
            let ghost before = children@;
            children.push(f);
            assert(strings_view(children@) =~= strings_view(before).push(f@));
        },
        None => {},
    }
    (
        if sym {
            symbols + 1
        } else {
            symbols
        },
        if wire {
            wires + 1
        } else {
            wires
        },
        if label {
            labels + 1
        } else {
            labels
        },
    )
}

// ---------------------------------------------------------------------------
// The walk
// ---------------------------------------------------------------------------

/// `s` with every trailing copy of `suffix` removed (`trim_end_matches`).
pub open spec fn strip_suffixes(s: Seq<char>, suffix: Seq<char>) -> Seq<char>
    decreases s.len(),
{
    if suffix.len() > 0 && suffix.len() <= s.len() && s.subrange(s.len() - suffix.len(), s.len() as int)
        == suffix {
        strip_suffixes(s.subrange(0, s.len() - suffix.len()), suffix)
    } else {
        s
    }
}

fn strip_suffixes_exec(s: &str, suffix: &str) -> (r: String)
    ensures
        r@ == strip_suffixes(s@, suffix@),
{
    let cs = chars_of(s);
    let sf = chars_of(suffix);
    let mut n: usize = cs.len();
    assert(cs@.take(n as int) =~= cs@);
    while sf.len() > 0 && sf.len() <= n && occurs_at_exec(cs.as_slice(), sf.as_slice(), n - sf.len())
        invariant
            n <= cs@.len(),
            sf@ == suffix@,
            strip_suffixes(cs@.take(n as int), suffix@) == strip_suffixes(cs@, suffix@),
        decreases n,
    {
        let ghost t = cs@.take(n as int);
        assert(t.subrange(t.len() - sf@.len(), t.len() as int) =~= cs@.subrange(n - sf@.len(), n as int));
        assert(t.subrange(0, t.len() - sf@.len()) =~= cs@.take(n - sf@.len()));
        n = n - sf.len();
    }
    let ghost t = cs@.take(n as int);
    if sf.len() > 0 && sf.len() <= n {
        assert(t.subrange(t.len() - sf@.len(), t.len() as int) =~= cs@.subrange(n - sf@.len(), n as int));
    }
    assert(cs@.take(cs@.len() as int) =~= cs@);
    let out = slice_chars(cs.as_slice(), 0, n);
    assert(out@ =~= t);
    string_from_chars(out.as_slice())
}

/// The files still to read, each with its depth, and the sheets read.
pub struct SheetWalk {
    pub queue: Vec<(String, usize)>,
    pub sheets: Vec<SheetEntry>,
    /// The root schematic the walk started at.
    pub root: Ghost<Seq<char>>,
}

impl SheetWalk {
    /// The sheets read so far form a proper walk: the root first, named
    /// `Root`; every other sheet named after its file; no file read twice;
    /// and, before anything is read, only the root is queued.
    pub open spec fn well_walked(self) -> bool {
        &&& forall|i: int, j: int|
            0 <= i < j < self.sheets@.len() ==> #[trigger] self.sheets@[i].filename@
                != #[trigger] self.sheets@[j].filename@
        &&& self.sheets@.len() > 0 ==> self.sheets@[0].name@ == "Root"@ && self.sheets@[0].filename@ == self.root@
        &&& forall|k: int|
            0 < k < self.sheets@.len() ==> (#[trigger] self.sheets@[k]).name@ == strip_suffixes(
                self.sheets@[k].filename@,
                ".kicad_sch"@,
            )
        &&& self.sheets@.len() == 0 ==> forall|k: int|
            0 <= k < self.queue@.len() ==> (#[trigger] self.queue@[k]).0@ == self.root@
    }
}

pub open spec fn visited(sheets: Seq<SheetEntry>, f: Seq<char>) -> bool {
    exists|i: int| 0 <= i < sheets.len() && #[trigger] sheets[i].filename@ == f
}

/// A queued file is read unless it is too deep or was read already.
pub open spec fn admissible(sheets: Seq<SheetEntry>, e: (String, usize)) -> bool {
    e.1 <= MAX_SHEET_DEPTH && !visited(sheets, e.0@)
}

fn is_visited(sheets: &Vec<SheetEntry>, f: &str) -> (b: bool)
    ensures
        b == visited(sheets@, f@),
{
    let mut i: usize = 0;
    while i < sheets.len()
        invariant
            i <= sheets@.len(),
            forall|j: int| 0 <= j < i ==> #[trigger] sheets@[j].filename@ != f@,
        decreases sheets.len() - i,
    {
        if str_eq(sheets[i].filename.as_str(), f) {
            return true;
        }
        i += 1;
    }
    false
}

/// The first line of `File too large` errors: the file and its size.
pub open spec fn too_large_message(filename: Seq<char>, size: nat) -> Seq<char> {
    "File too large: "@ + filename + " ("@ + decimal(size) + " bytes)"@
}

impl SheetWalk {
    /// A walk that starts at the root schematic.
    pub fn new(root_filename: &str) -> (w: SheetWalk)
        ensures
            w.queue@.len() == 1,
            w.queue@[0].0@ == root_filename@,
            w.queue@[0].1 == 0,
            w.sheets@.len() == 0,
            w.root@ == root_filename@,
            w.well_walked(),
    {
        let mut queue: Vec<(String, usize)> = Vec::new();
        queue.push((root_filename.to_owned(), 0));
        SheetWalk { queue, sheets: Vec::new(), root: Ghost(root_filename@) }
    }

    /// The next file to read, taken from the end of the queue; entries too
    /// deep or already read are dropped on the way. `None` once the queue
    /// is empty.
    pub fn next_file(&mut self) -> (r: Option<(String, usize)>)
        ensures
            final(self).sheets == old(self).sheets,
            final(self).root == old(self).root,
            old(self).well_walked() ==> final(self).well_walked(),
            r matches Some(e) ==> !visited(old(self).sheets@, e.0@) && (old(self).well_walked() && old(
                self,
            ).sheets@.len() == 0 ==> e.0@ == old(self).root@),
            final(self).queue@ == old(self).queue@.take(final(self).queue@.len() as int),
            r matches Some(e) ==> ({
                let k = final(self).queue@.len() as int;
                &&& k < old(self).queue@.len()
                &&& e == old(self).queue@[k]
                &&& admissible(old(self).sheets@, e)
                &&& forall|j: int|
                    k < j < old(self).queue@.len() ==> !admissible(old(self).sheets@, #[trigger] old(self).queue@[j])
            }),
            r is None ==> final(self).queue@.len() == 0 && forall|j: int|
                0 <= j < old(self).queue@.len() ==> !admissible(old(self).sheets@, #[trigger] old(self).queue@[j]),
    {
        let ghost q0 = self.queue@;
        loop
            invariant
                self.sheets == old(self).sheets,
                self.root == old(self).root,
                q0 == old(self).queue@,
                self.queue@ == q0.take(self.queue@.len() as int),
                self.queue@.len() <= q0.len(),
                forall|j: int| self.queue@.len() <= j < q0.len() ==> !admissible(self.sheets@, #[trigger] q0[j]),
            decreases self.queue@.len(),
        {
            let ghost before = self.queue@;
            match self.queue.pop() {
                None => {
                    return None;
                },
                Some(e) => {
                    assert(e == q0[self.queue@.len() as int]);
                    assert(self.queue@ =~= q0.take(self.queue@.len() as int));
                    if e.1 <= MAX_SHEET_DEPTH && !is_visited(&self.sheets, e.0.as_str()) {
                        return Some(e);
                    }
                },
            }
        }
    }

    /// Records a file that was read: a sheet entry named `Root` for the
    /// first file and after the file name less its `.kicad_sch` suffixes
    /// otherwise, with the counts of `scan_sheet_text`. Returns the sheet
    /// files the text names, for the caller to vet and queue.
    pub fn record(&mut self, filename: String, content: &str) -> (children: Vec<String>)
        ensures
            final(self).queue == old(self).queue,
            final(self).root == old(self).root,
            old(self).well_walked() && !visited(old(self).sheets@, filename@) && (old(self).sheets@.len() == 0
                ==> filename@ == old(self).root@) ==> final(self).well_walked(),
            final(self).sheets@.len() == old(self).sheets@.len() + 1,
            final(self).sheets@.take(old(self).sheets@.len() as int) == old(self).sheets@,
            ({
                let v = scan_sheet_spec(content@);
                let e = final(self).sheets@.last();
                &&& e.name@ == if old(self).sheets@.len() == 0 {
                    "Root"@
                } else {
                    strip_suffixes(filename@, ".kicad_sch"@)
                }
                &&& e.filename@ == filename@
                &&& e.symbols_count == v.symbols
                &&& e.wires_count == v.wires
                &&& e.labels_count == v.labels
                &&& strings_view(children@) == v.children
            }),
    {
        let scan = scan_sheet_text(content);
        let name = if self.sheets.len() == 0 {
            "Root".to_owned()
        } else {
            strip_suffixes_exec(filename.as_str(), ".kicad_sch")
        };
        let ghost before = self.sheets@;
        self.sheets.push(
            SheetEntry {
                name,
                filename,
                symbols_count: scan.symbols_count,
                wires_count: scan.wires_count,
                labels_count: scan.labels_count,
            },
        );
        assert(self.sheets@.take(before.len() as int) =~= before);
        scan.child_filenames
    }

    /// Queues a vetted child sheet file.
    pub fn enqueue(&mut self, child: String, depth: usize)
        ensures
            final(self).sheets == old(self).sheets,
            final(self).root == old(self).root,
            old(self).well_walked() && old(self).sheets@.len() > 0 ==> final(self).well_walked(),
            final(self).queue@ == old(self).queue@.push((child, depth)),
    {
        self.queue.push((child, depth));
    }

    /// Whether a file of `size` bytes may be read: sizes over
    /// `MAX_FILE_SIZE` are refused.
    pub fn check_file_size(filename: &str, size: u64) -> (r: Result<(), ParseError>)
        ensures
            size <= MAX_FILE_SIZE ==> r is Ok,
            size > MAX_FILE_SIZE ==> (r matches Err(ParseError::InvalidValue(m)) && m@
                == too_large_message(filename@, size as nat)),
    {
        if size > MAX_FILE_SIZE {
            let mut v = chars_of("File too large: ");
            let f = chars_of(filename);
            crate::text::append_chars(&mut v, f.as_slice());
            let open = chars_of(" (");
            crate::text::append_chars(&mut v, open.as_slice());
            let n = crate::text::u64_decimal(size);
            crate::text::append_chars(&mut v, n.as_slice());
            let close = chars_of(" bytes)");
            crate::text::append_chars(&mut v, close.as_slice());
            assert(v@ =~= too_large_message(filename@, size as nat));
            return Err(ParseError::InvalidValue(string_from_chars(v.as_slice())));
        }
        Ok(())
    }

    /// The sheets read so far. Of a walk driven by these steps: the root
    /// first, named `Root`; every file once; every other sheet named after
    /// its file.
    pub fn into_sheets(self) -> (r: Vec<SheetEntry>)
        ensures
            r == self.sheets,
            self.well_walked() ==> r@.len() > 0 ==> r@[0].name@ == "Root"@ && r@[0].filename@ == self.root@,
            self.well_walked() ==> forall|i: int, j: int|
                0 <= i < j < r@.len() ==> #[trigger] r@[i].filename@ != #[trigger] r@[j].filename@,
            self.well_walked() ==> forall|k: int|
                0 < k < r@.len() ==> (#[trigger] r@[k]).name@ == strip_suffixes(r@[k].filename@, ".kicad_sch"@),
    {
        self.sheets
    }
}

// ---------------------------------------------------------------------------
// Child sheet paths
// ---------------------------------------------------------------------------

/// A part of a file path, as a path's components are told apart.
#[derive(Debug, Clone, Copy, PartialEq, Eq, Structural)]
pub enum PathPart {
    /// A drive or share prefix.
    Prefix,
    /// The root.
    RootDir,
    /// `.`
    CurDir,
    /// `..`
    ParentDir,
    /// A plain name.
    Normal,
}

/// A part that leads out of the directory a path is taken from.
pub open spec fn leaves_dir(p: PathPart) -> bool {
    p is ParentDir || p is RootDir || p is Prefix
}

/// Some part of the path leads out of its directory.
pub open spec fn climbs_out(parts: Seq<PathPart>) -> bool {
    exists|k: int| 0 <= k < parts.len() && leaves_dir(#[trigger] parts[k])
}

/// Whether a child sheet's path, given by its parts, could lead out of
/// the project directory: it climbs to a parent, starts at the root or
/// names a prefix.
pub fn has_traversal(parts: &[PathPart]) -> (r: bool)
    ensures
        r == climbs_out(parts@),
{
    let mut i: usize = 0;
    while i < parts.len()
        invariant
            i <= parts@.len(),
            forall|k: int| 0 <= k < i ==> !leaves_dir(#[trigger] parts@[k]),
        decreases parts.len() - i,
    {
        match parts[i] {
            PathPart::ParentDir | PathPart::RootDir | PathPart::Prefix => {
                assert(leaves_dir(parts@[i as int]));
                return true;
            },
            _ => {},
        }
        i += 1;
    }
    false
}

/// Whether a child sheet named by a sheet is queued: its path has no part
/// that leads out of the project directory, and it resolves
/// (`resolved` is `Some`) to a file that lies inside the directory
/// (`Some(true)`; a directory that does not resolve itself counts as
/// holding it). A child that does not resolve is skipped.
pub fn admit_child(parts: &[PathPart], resolved: Option<bool>) -> (r: bool)
    ensures
        r == (!climbs_out(parts@) && resolved == Some(true)),
{
    if has_traversal(parts) {
        return false;
    }
    match resolved {
        Some(inside) => inside,
        None => false,
    }
}

} // verus!
