//! The whole sheet walk over a project directory given as its files: the
//! root first, every reachable sheet once, no child outside the directory.

use vstd::prelude::*;

use crate::error::ParseError;
use crate::project::SheetEntry;
use crate::sheet_walk::{
    admit_child, admissible, climbs_out, scan_sheet_spec, strings_view, strip_suffixes, too_large_message, visited, PathPart,
    SheetWalk, MAX_FILE_SIZE, MAX_SHEET_DEPTH,
};
use crate::text::{append_chars, chars_of, str_eq, string_from_chars};

verus! {

broadcast use vstd::std_specs::vec::group_vec_axioms;

/// A file of the project directory, as the sheet walk meets it.
pub struct DirFile {
    /// Its name, as a sheet names it.
    pub name: String,
    /// Its size in bytes.
    pub size: u64,
    /// Its text, or `None` when it is not readable as UTF-8 text.
    pub text: Option<String>,
    /// The parts of its path.
    pub parts: Vec<PathPart>,
    /// Whether its path resolves to a place inside the directory.
    pub inside: bool,
}

/// `files[i]` is the file named `n`: the first of that name.
pub open spec fn file_at(files: Seq<DirFile>, n: Seq<char>, i: int) -> bool {
    &&& 0 <= i < files.len()
    &&& files[i].name@ == n
    &&& forall|j: int| 0 <= j < i ==> (#[trigger] files[j]).name@ != n
}

pub open spec fn has_file(files: Seq<DirFile>, n: Seq<char>) -> bool {
    exists|i: int| 0 <= i < files.len() && (#[trigger] files[i]).name@ == n
}

/// A sheet may name `n` as a child: the file exists, its path has no
/// part that leads out, and it lies inside the directory.
pub open spec fn child_ok(files: Seq<DirFile>, n: Seq<char>) -> bool {
    exists|i: int| #[trigger] file_at(files, n, i) && !climbs_out(files[i].parts@) && files[i].inside
}

/// `e` is what reading file `f` records, at position `k` of the walk.
pub open spec fn entry_of(f: DirFile, e: SheetEntry, k: int) -> bool {
    &&& f.text matches Some(t) && {
        let v = scan_sheet_spec(t@);
        &&& e.symbols_count == v.symbols
        &&& e.wires_count == v.wires
        &&& e.labels_count == v.labels
    }
    &&& e.filename@ == f.name@
    &&& e.name@ == if k == 0 {
        "Root"@
    } else {
        strip_suffixes(f.name@, ".kicad_sch"@)
    }
}

/// Every file of the directory can be read and is at most `MAX_FILE_SIZE`
/// bytes.
pub open spec fn dir_readable(files: Seq<DirFile>) -> bool {
    forall|i: int| 0 <= i < files.len() ==> (#[trigger] files[i]).text is Some && files[i].size <= MAX_FILE_SIZE
}

/// The sheets of a finished walk from `root`: the root first; no file
/// twice; each entry read from the file of its name; every sheet after
/// the root a child that the path checks admit.
pub open spec fn walked_from(files: Seq<DirFile>, root: Seq<char>, v: Seq<SheetEntry>) -> bool {
    &&& v.len() > 0
    &&& v[0].filename@ == root
    &&& forall|i: int, j: int| 0 <= i < j < v.len() ==> #[trigger] v[i].filename@ != #[trigger] v[j].filename@
    &&& entries_read(files, v)
    &&& children_ok(files, v)
}

/// Each entry is read from the file of its name.
pub open spec fn entries_read(files: Seq<DirFile>, v: Seq<SheetEntry>) -> bool {
    forall|k: int| 0 <= k < v.len() ==> #[trigger] entry_found(files, v[k], k)
}

/// Entry `e`, at position `k`, is read from the file of its name.
pub open spec fn entry_found(files: Seq<DirFile>, e: SheetEntry, k: int) -> bool {
    exists|i: int| #[trigger] file_at(files, e.filename@, i) && entry_of(files[i], e, k)
}

/// Every entry after the first is a child the path checks admit.
pub open spec fn children_ok(files: Seq<DirFile>, v: Seq<SheetEntry>) -> bool {
    forall|k: int| 0 < k < v.len() ==> child_ok(files, (#[trigger] v[k]).filename@)
}

/// The sheet files that the text of `f` names.
pub open spec fn file_children(f: DirFile) -> Seq<Seq<char>> {
    match f.text {
        Some(t) => scan_sheet_spec(t@).children,
        None => Seq::empty(),
    }
}

/// The file named `n` names `c` as a child sheet.
pub open spec fn names_child(files: Seq<DirFile>, n: Seq<char>, c: Seq<char>) -> bool {
    exists|i: int| #[trigger] file_at(files, n, i) && file_children(files[i]).contains(c)
}

/// Sheet `j` of `v` names `c`.
pub open spec fn parent_at(files: Seq<DirFile>, v: Seq<SheetEntry>, j: int, c: Seq<char>) -> bool {
    0 <= j < v.len() && names_child(files, v[j].filename@, c)
}

/// `d` gives the depth each sheet of `v` was read at: the root at 0,
/// every other sheet one below an earlier sheet that names it, none below
/// `MAX_SHEET_DEPTH`.
pub open spec fn walk_depths(files: Seq<DirFile>, v: Seq<SheetEntry>, d: Seq<int>) -> bool {
    &&& d.len() == v.len()
    &&& v.len() > 0 ==> d[0] == 0
    &&& forall|k: int| 0 <= k < v.len() ==> 0 <= #[trigger] d[k] <= MAX_SHEET_DEPTH
    &&& forall|k: int| 0 < k < v.len() ==> #[trigger] has_parent(files, v, d, k)
}

/// Sheet `k` of `v` sits one level below an earlier sheet that names it.
pub open spec fn has_parent(files: Seq<DirFile>, v: Seq<SheetEntry>, d: Seq<int>, k: int) -> bool {
    exists|j: int| j < k && #[trigger] parent_at(files, v, j, v[k].filename@) && d[k] == d[j] + 1
}

/// No sheet left out: every child that the path checks admit, named by a
/// sheet above the depth limit, was read.
pub open spec fn walk_complete(files: Seq<DirFile>, v: Seq<SheetEntry>, d: Seq<int>) -> bool {
    forall|j: int, c: Seq<char>|
        0 <= j < v.len() && d[j] < MAX_SHEET_DEPTH && #[trigger] names_child(files, v[j].filename@, c) && child_ok(
            files,
            c,
        ) ==> visited(v, c)
}

/// The walk that read `v` is finished: with the depths the sheets were
/// read at, every admitted child of a sheet above the depth limit was read.
pub open spec fn walk_finished(files: Seq<DirFile>, v: Seq<SheetEntry>) -> bool {
    exists|d: Seq<int>| #[trigger] walk_depths(files, v, d) && walk_complete(files, v, d)
}

/// Sheets read so far by a walk from `root`.
pub open spec fn walk_prefix(files: Seq<DirFile>, root: Seq<char>, v: Seq<SheetEntry>) -> bool {
    &&& v.len() > 0 ==> v[0].filename@ == root
    &&& forall|i: int, j: int| 0 <= i < j < v.len() ==> #[trigger] v[i].filename@ != #[trigger] v[j].filename@
    &&& entries_read(files, v)
    &&& children_ok(files, v)
}

/// `f` is a file the walk reads next after `v`: the root when nothing is
/// read yet, else an admitted child, not yet read, of a read sheet above
/// the depth limit.
pub open spec fn next_to_read(files: Seq<DirFile>, root: Seq<char>, v: Seq<SheetEntry>, d: Seq<int>, f: Seq<char>) -> bool {
    ||| v.len() == 0 && f == root
    ||| v.len() > 0 && !visited(v, f) && child_ok(files, f) && exists|j: int|
        #[trigger] parent_at(files, v, j, f) && d[j] < MAX_SHEET_DEPTH
}

/// `e` is an I/O error with message `m`.
pub open spec fn io_error_is(e: ParseError, m: Seq<char>) -> bool {
    e matches ParseError::IoError(x) && x@ == m
}

/// `e` is an invalid-value error with message `m`.
pub open spec fn invalid_value_is(e: ParseError, m: Seq<char>) -> bool {
    e matches ParseError::InvalidValue(x) && x@ == m
}

/// Reading `f` fails with `e`: it is missing, too large, or not text.
pub open spec fn failed_read(files: Seq<DirFile>, f: Seq<char>, e: ParseError) -> bool {
    ||| !has_file(files, f) && io_error_is(e, read_failure(f, "not found"@))
    ||| exists|i: int|
        #[trigger] file_at(files, f, i) && ((files[i].size > MAX_FILE_SIZE && invalid_value_is(
            e,
            too_large_message(f, files[i].size as nat),
        )) || (files[i].size <= MAX_FILE_SIZE && files[i].text is None && io_error_is(
            e,
            read_failure(f, "not valid UTF-8"@),
        )))
}

/// The walk stops with `e` after reading `v`: `f` is the file it reads
/// next, and reading `f` fails.
pub open spec fn stuck(files: Seq<DirFile>, root: Seq<char>, v: Seq<SheetEntry>, d: Seq<int>, f: Seq<char>, e: ParseError) -> bool {
    &&& walk_prefix(files, root, v)
    &&& walk_depths(files, v, d)
    &&& next_to_read(files, root, v, d, f)
    &&& failed_read(files, f, e)
}

proof fn lemma_file_at_unique(files: Seq<DirFile>, n: Seq<char>, i: int, j: int)
    requires
        file_at(files, n, i),
        file_at(files, n, j),
    ensures
        i == j,
{
    if i < j {
        assert(files[i].name@ == n);
    } else if j < i {
        assert(files[j].name@ == n);
    }
}

/// The message of a file the walk could not read.
pub open spec fn read_failure(name: Seq<char>, why: Seq<char>) -> Seq<char> {
    "Failed to read "@ + name + ": "@ + why
}

fn find_file(files: &[DirFile], name: &str) -> (r: Option<usize>)
    ensures
        match r {
            Some(i) => file_at(files@, name@, i as int),
            None => !has_file(files@, name@),
        },
{
    let mut i: usize = 0;
    while i < files.len()
        invariant
            i <= files@.len(),
            forall|j: int| 0 <= j < i ==> (#[trigger] files@[j]).name@ != name@,
        decreases files.len() - i,
    {
        if str_eq(files[i].name.as_str(), name) {
            return Some(i);
        }
        i += 1;
    }
    None
}

fn read_error(name: &str, why: &str) -> (e: ParseError)
    ensures
        e matches ParseError::IoError(m) && m@ == read_failure(name@, why@),
{
    let mut v = chars_of("Failed to read ");
    let n = chars_of(name);
    append_chars(&mut v, n.as_slice());
    let sep = chars_of(": ");
    append_chars(&mut v, sep.as_slice());
    let w = chars_of(why);
    append_chars(&mut v, w.as_slice());
    proof {
        reveal_strlit("Failed to read ");
        reveal_strlit(": ");
    }
    assert(v@ =~= read_failure(name@, why@));
    ParseError::IoError(string_from_chars(v.as_slice()))
}

proof fn lemma_visited_push(old_s: Seq<SheetEntry>, new_s: Seq<SheetEntry>, f: Seq<char>)
    requires
        new_s.len() == old_s.len() + 1,
        new_s.take(old_s.len() as int) == old_s,
        new_s.last().filename@ == f,
    ensures
        forall|n: Seq<char>| visited(new_s, n) <==> (visited(old_s, n) || n == f),
{
    assert forall|n: Seq<char>| visited(new_s, n) <==> (visited(old_s, n) || n == f) by {
        if visited(new_s, n) {
            let i = choose|i: int| 0 <= i < new_s.len() && #[trigger] new_s[i].filename@ == n;
            if i < old_s.len() {
                assert(old_s[i] == new_s.take(old_s.len() as int)[i]);
            }
        }
        if visited(old_s, n) {
            let i = choose|i: int| 0 <= i < old_s.len() && #[trigger] old_s[i].filename@ == n;
            assert(old_s[i] == new_s.take(old_s.len() as int)[i]);
            assert(new_s[i].filename@ == n);
        }
        if n == f {
            assert(new_s[new_s.len() - 1].filename@ == n);
        }
    }
}

proof fn lemma_entries_push(files: Seq<DirFile>, old_s: Seq<SheetEntry>, new_s: Seq<SheetEntry>, i: int)
    requires
        entries_read(files, old_s),
        new_s.len() == old_s.len() + 1,
        new_s.take(old_s.len() as int) == old_s,
        file_at(files, new_s.last().filename@, i),
        entry_of(files[i], new_s.last(), old_s.len() as int),
    ensures
        entries_read(files, new_s),
{
    assert forall|k: int| 0 <= k < new_s.len() implies #[trigger] entry_found(files, new_s[k], k) by {
        if k < old_s.len() {
            assert(new_s[k] == new_s.take(old_s.len() as int)[k]);
            assert(old_s[k] == new_s[k]);
            assert(entry_found(files, old_s[k], k));
        } else {
            assert(file_at(files, new_s[k].filename@, i));
        }
    }
}

/// Queue entry `e` was queued by a read sheet of `v` that names it, one
/// level below that sheet's depth in `d`.
pub open spec fn queued_from(files: Seq<DirFile>, v: Seq<SheetEntry>, d: Seq<int>, e: (String, usize)) -> bool {
    exists|j: int| #[trigger] parent_at(files, v, j, e.0@) && e.1 as int == d[j] + 1
}

/// `c` waits in `queue` at depth `dep`.
pub open spec fn pending(queue: Seq<(String, usize)>, c: Seq<char>, dep: int) -> bool {
    exists|q: int| 0 <= q < queue.len() && #[trigger] queue[q].0@ == c && queue[q].1 as int == dep
}

/// Every admitted child named by one of the first `n` sheets of `v` that
/// lies above the depth limit is read or waits in `queue` one level below
/// its sheet.
pub open spec fn all_pending(files: Seq<DirFile>, v: Seq<SheetEntry>, d: Seq<int>, queue: Seq<(String, usize)>, n: int) -> bool {
    forall|j: int, c: Seq<char>|
        0 <= j < n && d[j] < MAX_SHEET_DEPTH && #[trigger] names_child(files, v[j].filename@, c) && child_ok(
            files,
            c,
        ) ==> visited(v, c) || pending(queue, c, d[j] + 1)
}

proof fn lemma_pending_extend(q1: Seq<(String, usize)>, q2: Seq<(String, usize)>)
    requires
        q1.len() <= q2.len(),
        forall|q: int| 0 <= q < q1.len() ==> q2[q] == q1[q],
    ensures
        forall|c: Seq<char>, dep: int| #[trigger] pending(q1, c, dep) ==> pending(q2, c, dep),
{
    assert forall|c: Seq<char>, dep: int| #[trigger] pending(q1, c, dep) implies pending(q2, c, dep) by {
        let q = choose|q: int| 0 <= q < q1.len() && #[trigger] q1[q].0@ == c && q1[q].1 as int == dep;
        assert(q2[q] == q1[q]);
    }
}

proof fn lemma_all_pending_extend(files: Seq<DirFile>, v: Seq<SheetEntry>, d: Seq<int>, q1: Seq<(String, usize)>, q2: Seq<(String, usize)>, n: int)
    requires
        all_pending(files, v, d, q1, n),
        q1.len() <= q2.len(),
        forall|q: int| 0 <= q < q1.len() ==> q2[q] == q1[q],
    ensures
        all_pending(files, v, d, q2, n),
{
    lemma_pending_extend(q1, q2);
}

/// After the file at `kq` of the queue `bq` was read (the entries above
/// `kq` were dropped as too deep or read already), what was pending is
/// read or waits below `kq`.
proof fn lemma_pending_after_read(
    files: Seq<DirFile>,
    bs: Seq<SheetEntry>,
    bq: Seq<(String, usize)>,
    kq: int,
    ns: Seq<SheetEntry>,
    d: Seq<int>,
    d2: Seq<int>,
)
    requires
        0 <= kq < bq.len(),
        d.len() == bs.len(),
        d2.len() >= bs.len(),
        forall|j: int| 0 <= j < bs.len() ==> d2[j] == d[j],
        ns.len() == bs.len() + 1,
        ns.take(bs.len() as int) == bs,
        ns.last().filename@ == bq[kq].0@,
        forall|j: int| kq < j < bq.len() ==> !admissible(bs, #[trigger] bq[j]),
        all_pending(files, bs, d, bq, bs.len() as int),
    ensures
        all_pending(files, ns, d2, bq.take(kq), bs.len() as int),
{
    lemma_visited_push(bs, ns, bq[kq].0@);
    assert forall|j: int, c: Seq<char>|
        0 <= j < bs.len() && d2[j] < MAX_SHEET_DEPTH && #[trigger] names_child(files, ns[j].filename@, c)
            && child_ok(files, c) implies visited(ns, c) || pending(bq.take(kq), c, d2[j] + 1) by {
        assert(ns[j] == ns.take(bs.len() as int)[j]);
        assert(ns[j] == bs[j]);
        assert(names_child(files, bs[j].filename@, c));
        if !visited(bs, c) {
            assert(pending(bq, c, d[j] + 1));
            let q = choose|q: int| 0 <= q < bq.len() && #[trigger] bq[q].0@ == c && bq[q].1 as int == d[j] + 1;
            if q > kq {
                assert(!admissible(bs, bq[q]));
            } else if q < kq {
                assert(bq.take(kq)[q] == bq[q]);
            }
        }
    }
}

/// Once the children of the last sheet are queued, every sheet's
/// admitted children are read or pending.
proof fn lemma_pending_new_sheet(
    files: Seq<DirFile>,
    v: Seq<SheetEntry>,
    d: Seq<int>,
    queue: Seq<(String, usize)>,
    i: int,
    ch: Seq<Seq<char>>,
)
    requires
        v.len() > 0,
        d.len() == v.len(),
        all_pending(files, v, d, queue, v.len() - 1),
        file_at(files, v.last().filename@, i),
        file_children(files[i]) == ch,
        forall|m: int| 0 <= m < ch.len() && child_ok(files, #[trigger] ch[m]) ==> pending(queue, ch[m], d.last() + 1),
    ensures
        all_pending(files, v, d, queue, v.len() as int),
{
    let k = v.len() - 1;
    assert forall|j: int, c: Seq<char>|
        0 <= j < v.len() && d[j] < MAX_SHEET_DEPTH && #[trigger] names_child(files, v[j].filename@, c)
            && child_ok(files, c) implies visited(v, c) || pending(queue, c, d[j] + 1) by {
        if j == k {
            let i2 = choose|i2: int| #[trigger] file_at(files, v[k].filename@, i2) && file_children(files[i2]).contains(c);
            lemma_file_at_unique(files, v[k].filename@, i, i2);
            let m = choose|m: int| 0 <= m < ch.len() && ch[m] == c;
            assert(child_ok(files, ch[m]));
        }
    }
}

/// A queue whose every entry is too deep or read already leaves nothing
/// pending: the walk is complete.
proof fn lemma_pending_done(files: Seq<DirFile>, v: Seq<SheetEntry>, d: Seq<int>, queue: Seq<(String, usize)>)
    requires
        all_pending(files, v, d, queue, v.len() as int),
        forall|q: int| 0 <= q < queue.len() ==> !admissible(v, #[trigger] queue[q]),
    ensures
        walk_complete(files, v, d),
{
    assert forall|j: int, c: Seq<char>|
        0 <= j < v.len() && d[j] < MAX_SHEET_DEPTH && #[trigger] names_child(files, v[j].filename@, c)
            && child_ok(files, c) implies visited(v, c) by {
        if !visited(v, c) {
            assert(pending(queue, c, d[j] + 1));
            let q = choose|q: int| 0 <= q < queue.len() && #[trigger] queue[q].0@ == c && queue[q].1 as int == d[j] + 1;
            assert(!admissible(v, queue[q]));
        }
    }
}

/// Reading the queue entry `e` extends the walk: its sheet is a checked
/// child (after the root), one level below the sheet that queued it.
proof fn lemma_walk_push(files: Seq<DirFile>, bs: Seq<SheetEntry>, ns: Seq<SheetEntry>, d: Seq<int>, e: (String, usize))
    requires
        children_ok(files, bs),
        walk_depths(files, bs, d),
        ns.len() == bs.len() + 1,
        ns.take(bs.len() as int) == bs,
        ns.last().filename@ == e.0@,
        e.1 <= MAX_SHEET_DEPTH,
        bs.len() == 0 ==> e.1 == 0,
        bs.len() > 0 ==> child_ok(files, e.0@) && queued_from(files, bs, d, e),
    ensures
        children_ok(files, ns),
        walk_depths(files, ns, d.push(e.1 as int)),
{
    let k = bs.len() as int;
    let nd = d.push(e.1 as int);
    assert forall|kk: int| 0 <= kk < k implies ns[kk] == bs[kk] by {
        assert(ns[kk] == ns.take(k)[kk]);
    }
    assert forall|kk: int| 0 < kk < ns.len() implies child_ok(files, (#[trigger] ns[kk]).filename@) by {
        if kk < k {
            assert(ns[kk] == bs[kk]);
        }
    }
    assert forall|kk: int| 0 < kk < ns.len() implies #[trigger] has_parent(files, ns, nd, kk) by {
        if kk < k {
            assert(has_parent(files, bs, d, kk));
            let j = choose|j: int| j < kk && #[trigger] parent_at(files, bs, j, bs[kk].filename@) && d[kk] == d[j] + 1;
            assert(ns[j] == bs[j]);
            assert(parent_at(files, ns, j, ns[kk].filename@));
        } else {
            let j = choose|j: int| #[trigger] parent_at(files, bs, j, e.0@) && e.1 as int == d[j] + 1;
            assert(ns[j] == bs[j]);
            assert(parent_at(files, ns, j, ns[kk].filename@));
        }
    }
}

/// Where the walk stops, the root is missing or some file it reaches is
/// unreadable or too large.
proof fn lemma_stuck_facts(files: Seq<DirFile>, root: Seq<char>, v: Seq<SheetEntry>, d: Seq<int>, f: Seq<char>, e: ParseError)
    requires
        stuck(files, root, v, d, f, e),
    ensures
        !has_file(files, root) ==> io_error_is(e, read_failure(root, "not found"@)),
        !(dir_readable(files) && has_file(files, root)),
{
    if v.len() > 0 {
        let i = choose|i: int| #[trigger] file_at(files, f, i) && !climbs_out(files[i].parts@) && files[i].inside;
        assert(files[i].name@ == f);
        assert(entry_found(files, v[0], 0));
        let i0 = choose|i0: int| #[trigger] file_at(files, v[0].filename@, i0) && entry_of(files[i0], v[0], 0);
        assert(files[i0].name@ == root);
    }
    if has_file(files, f) {
        let i = choose|i: int| #[trigger] file_at(files, f, i) && ((files[i].size > MAX_FILE_SIZE && invalid_value_is(
            e,
            too_large_message(f, files[i].size as nat),
        )) || (files[i].size <= MAX_FILE_SIZE && files[i].text is None && io_error_is(
            e,
            read_failure(f, "not valid UTF-8"@),
        )));
        assert(files[i].name@ == f);
    }
}

/// The walk's state: the steps' own facts, and what the whole walk
/// keeps: the sheets read from their files, their depths, and every queue
/// entry a checked child queued by a read sheet.
pub open spec fn walk_state(files: Seq<DirFile>, root: Seq<char>, w: SheetWalk, d: Seq<int>) -> bool {
    &&& w.well_walked()
    &&& w.root@ == root
    &&& w.sheets@.len() == 0 ==> w.queue@.len() == 1 && w.queue@[0].1 == 0
    &&& w.sheets@.len() > 0 ==> forall|q: int| 0 <= q < w.queue@.len() ==> child_ok(files, (#[trigger] w.queue@[q]).0@)
    &&& w.sheets@.len() > 0 ==> forall|q: int|
        0 <= q < w.queue@.len() ==> queued_from(files, w.sheets@, d, #[trigger] w.queue@[q])
    &&& entries_read(files, w.sheets@)
    &&& children_ok(files, w.sheets@)
    &&& walk_depths(files, w.sheets@, d)
    &&& w.sheets@.len() > 0 ==> has_file(files, root)
}

/// Queues the children that the last read sheet names and the path
/// checks admit, one level below it.
#[verifier::rlimit(60)]
fn queue_children(
    files: &[DirFile],
    walk: &mut SheetWalk,
    children: &Vec<String>,
    depth: usize,
    Ghost(depths): Ghost<Seq<int>>,
    Ghost(i): Ghost<int>,
)
    requires
        old(walk).sheets@.len() > 0,
        depths.len() == old(walk).sheets@.len(),
        depths.last() == depth as int,
        depth <= MAX_SHEET_DEPTH,
        file_at(files@, old(walk).sheets@.last().filename@, i),
        file_children(files@[i]) == strings_view(children@),
        old(walk).well_walked(),
        forall|q: int| 0 <= q < old(walk).queue@.len() ==> child_ok(files@, (#[trigger] old(walk).queue@[q]).0@),
        forall|q: int| 0 <= q < old(walk).queue@.len() ==> queued_from(files@, old(walk).sheets@, depths, #[trigger] old(walk).queue@[q]),
        all_pending(files@, old(walk).sheets@, depths, old(walk).queue@, old(walk).sheets@.len() - 1),
    ensures
        final(walk).sheets == old(walk).sheets,
        final(walk).root == old(walk).root,
        final(walk).well_walked(),
        forall|q: int| 0 <= q < final(walk).queue@.len() ==> child_ok(files@, (#[trigger] final(walk).queue@[q]).0@),
        forall|q: int| 0 <= q < final(walk).queue@.len() ==> queued_from(files@, final(walk).sheets@, depths, #[trigger] final(walk).queue@[q]),
        all_pending(files@, final(walk).sheets@, depths, final(walk).queue@, final(walk).sheets@.len() as int),
{
    let ghost after = walk.sheets;
    let ghost k = walk.sheets@.len() - 1;
    let ghost fname = walk.sheets@.last().filename@;
    let mut c: usize = 0;
    while c < children.len()
        invariant
            walk.sheets == after,
            walk.root == old(walk).root,
            after@.len() == k + 1,
            after@.last().filename@ == fname,
            file_at(files@, fname, i),
            file_children(files@[i]) == strings_view(children@),
            walk.well_walked(),
            walk.sheets@.len() > 0,
            depth <= MAX_SHEET_DEPTH,
            depths.len() == k + 1,
            depths[k] == depth as int,
            forall|q: int| 0 <= q < walk.queue@.len() ==> child_ok(files@, (#[trigger] walk.queue@[q]).0@),
            forall|q: int| 0 <= q < walk.queue@.len() ==> queued_from(files@, walk.sheets@, depths, #[trigger] walk.queue@[q]),
            all_pending(files@, after@, depths, walk.queue@, k),
            forall|m: int|
                0 <= m < c && child_ok(files@, #[trigger] strings_view(children@)[m]) ==> pending(
                    walk.queue@,
                    strings_view(children@)[m],
                    depth + 1,
                ),
        decreases children.len() - c,
    {
        let child = children[c].clone();
        let ok = match find_file(files, child.as_str()) {
            Some(j) => admit_child(files[j].parts.as_slice(), Some(files[j].inside)),
            None => false,
        };
        proof {
            assert(strings_view(children@)[c as int] == child@);
            if child_ok(files@, child@) {
                let j2 = choose|j2: int| #[trigger] file_at(files@, child@, j2) && !climbs_out(files@[j2].parts@) && files@[j2].inside;
                assert(files@[j2].name@ == child@);
            }
        }
        if ok {
            let ghost q0 = walk.queue@;
            proof {
                assert(file_children(files@[i])[c as int] == child@);
                assert(file_children(files@[i]).contains(child@));
                assert(names_child(files@, fname, child@));
                assert(parent_at(files@, walk.sheets@, k, child@));
            }
            walk.enqueue(child, depth + 1);
            proof {
                lemma_all_pending_extend(files@, after@, depths, q0, walk.queue@, k);
                lemma_pending_extend(q0, walk.queue@);
                assert forall|q: int| 0 <= q < walk.queue@.len() implies child_ok(files@, (#[trigger] walk.queue@[q]).0@) by {
                    if q < q0.len() {
                        assert(walk.queue@[q] == q0[q]);
                    }
                }
                assert forall|q: int| 0 <= q < walk.queue@.len() implies queued_from(files@, walk.sheets@, depths, #[trigger] walk.queue@[q]) by {
                    if q < q0.len() {
                        assert(walk.queue@[q] == q0[q]);
                    } else {
                        assert(parent_at(files@, walk.sheets@, k, walk.queue@[q].0@));
                    }
                }
                let last = q0.len() as int;
                assert(walk.queue@[last].0@ == strings_view(children@)[c as int]);
                assert(pending(walk.queue@, strings_view(children@)[c as int], depth + 1));
                assert forall|m: int|
                    0 <= m < c + 1 && child_ok(files@, #[trigger] strings_view(children@)[m]) implies pending(
                        walk.queue@,
                        strings_view(children@)[m],
                        depth + 1,
                    ) by {
                    if m < c {
                        assert(pending(q0, strings_view(children@)[m], depth + 1));
                    }
                }
            }
        }
        c += 1;
    }
    proof {
        lemma_pending_new_sheet(files@, after@, depths, walk.queue@, i, strings_view(children@));
    }
}

/// Reads the file `filename` that the walk `before` takes next (at `kq`
/// of its queue, `walk` being `before` with the queue cut there), records
/// it, and queues its admitted children; or stops at it.
#[verifier::rlimit(100)]
#[verifier::spinoff_prover]
fn read_next(
    files: &[DirFile],
    root_filename: &str,
    walk: &mut SheetWalk,
    filename: String,
    depth: usize,
    Ghost(depths): Ghost<Seq<int>>,
    Ghost(before): Ghost<SheetWalk>,
) -> (r: Result<Ghost<Seq<int>>, ParseError>)
    requires
        walk_state(files@, root_filename@, before, depths),
        all_pending(files@, before.sheets@, depths, before.queue@, before.sheets@.len() as int),
        old(walk).sheets == before.sheets,
        old(walk).root == before.root,
        old(walk).queue@ == before.queue@.take(old(walk).queue@.len() as int),
        old(walk).queue@.len() < before.queue@.len(),
        before.queue@[old(walk).queue@.len() as int].0@ == filename@,
        before.queue@[old(walk).queue@.len() as int].1 == depth,
        admissible(before.sheets@, before.queue@[old(walk).queue@.len() as int]),
        forall|j: int| old(walk).queue@.len() < j < before.queue@.len() ==> !admissible(before.sheets@, #[trigger] before.queue@[j]),
        before.sheets@.len() == 0 ==> filename@ == root_filename@,
    ensures
        match r {
            Ok(nd) => {
                &&& walk_state(files@, root_filename@, *final(walk), nd@)
                &&& all_pending(files@, final(walk).sheets@, nd@, final(walk).queue@, final(walk).sheets@.len() as int)
                &&& final(walk).sheets@.len() == before.sheets@.len() + 1
                &&& final(walk).sheets@.take(before.sheets@.len() as int) == before.sheets@
                &&& final(walk).sheets@.last().filename@ == filename@
                &&& has_file(files@, filename@)
            },
            Err(e) => stuck(files@, root_filename@, before.sheets@, depths, filename@, e),
        },
{
    let ghost depths0 = depths;
    let ghost mut depths = depths0;
    let ghost k = before.sheets@.len() as int;
    let ghost kq = walk.queue@.len() as int;
    proof {
        assert(before.queue@[kq].0@ == filename@ && before.queue@[kq].1 == depth);
        if k > 0 {
            assert(child_ok(files@, before.queue@[kq].0@));
        }
    }
    let i = match find_file(files, filename.as_str()) {
        None => {
            proof {
                if k > 0 {
                    assert(child_ok(files@, before.queue@[kq].0@));
                    let j = choose|j: int| #[trigger] file_at(files@, filename@, j) && !climbs_out(files@[j].parts@) && files@[j].inside;
                    assert(files@[j].name@ == filename@);
                }
            }
            let err = read_error(filename.as_str(), "not found");
            proof {
                assert(stuck(files@, root_filename@, walk.sheets@, depths, filename@, err));
            }
            return Err(err);
        },
        Some(i) => i,
    };
    proof {
        if k > 0 {
            let j = choose|j: int|
                #[trigger] parent_at(files@, before.sheets@, j, before.queue@[kq].0@)
                    && before.queue@[kq].1 as int == depths[j] + 1;
            assert(parent_at(files@, walk.sheets@, j, filename@) && depths[j] < MAX_SHEET_DEPTH);
            assert(next_to_read(files@, root_filename@, walk.sheets@, depths, filename@));
        } else {
            assert(next_to_read(files@, root_filename@, walk.sheets@, depths, filename@));
        }
        assert(walk_prefix(files@, root_filename@, walk.sheets@));
    }
    match SheetWalk::check_file_size(filename.as_str(), files[i].size) {
        Err(e) => {
            proof {
                assert(files@[i as int].name@ == filename@);
                assert(has_file(files@, root_filename@));
                assert(failed_read(files@, filename@, e));
                assert(stuck(files@, root_filename@, walk.sheets@, depths, filename@, e));
            }
            return Err(e);
        },
        Ok(()) => {},
    }
    let text = match &files[i].text {
        None => {
            proof {
                assert(files@[i as int].name@ == filename@);
                assert(has_file(files@, root_filename@));
            }
            let err = read_error(filename.as_str(), "not valid UTF-8");
            proof {
                assert(failed_read(files@, filename@, err));
                assert(stuck(files@, root_filename@, walk.sheets@, depths, filename@, err));
            }
            return Err(err);
        },
        Some(t) => t,
    };
    let ghost fname = filename@;
    let ghost mid = walk;
    let ghost old_depths = depths;
    let children = walk.record(filename, text.as_str());
    proof {
        assert(has_file(files@, fname)) by {
            assert(files@[i as int].name@ == fname);
        }
        assert(file_at(files@, walk.sheets@.last().filename@, i as int));
        assert(entry_of(files@[i as int], walk.sheets@.last(), k));
        lemma_entries_push(files@, mid.sheets@, walk.sheets@, i as int);
        if k > 0 {
            assert(child_ok(files@, before.queue@[kq].0@));
            assert(queued_from(files@, before.sheets@, old_depths, before.queue@[kq]));
        }
        lemma_walk_push(files@, before.sheets@, walk.sheets@, old_depths, before.queue@[kq]);
        depths = old_depths.push(depth as int);
        lemma_pending_after_read(files@, before.sheets@, before.queue@, kq, walk.sheets@, old_depths, depths);
    }
    proof {
        assert(file_children(files@[i as int]) == strings_view(children@));
        assert(walk.queue@ =~= before.queue@.take(kq));
        assert forall|q: int| 0 <= q < walk.queue@.len() implies child_ok(files@, (#[trigger] walk.queue@[q]).0@)
            && queued_from(files@, walk.sheets@, depths, walk.queue@[q]) by {
            assert(walk.queue@[q] == before.queue@[q]);
            assert(child_ok(files@, before.queue@[q].0@));
            assert(queued_from(files@, before.sheets@, old_depths, before.queue@[q]));
            let j = choose|j: int| #[trigger] parent_at(files@, before.sheets@, j, before.queue@[q].0@) && before.queue@[q].1 as int == old_depths[j] + 1;
            assert(walk.sheets@[j] == walk.sheets@.take(k)[j]);
            assert(parent_at(files@, walk.sheets@, j, walk.queue@[q].0@));
        }
    }
    queue_children(files, walk, &children, depth, Ghost(depths), Ghost(i as int));
    Ok(Ghost(depths))
}

/// Walks the sheets of a project directory given as its files, from
/// `root_filename`: the walk of `SheetWalk`, with each file read from
/// `files` (refused when missing, over `MAX_FILE_SIZE` bytes or not text)
/// and each named child queued when `admit_child` admits it. A finished
/// walk has read every admitted child of every sheet above the depth
/// limit; a walk that stops does so at the file it reads next.
#[verifier::rlimit(100)]
#[verifier::spinoff_prover]
pub fn collect_sheets_from(files: &[DirFile], root_filename: &str) -> (r: Result<Vec<SheetEntry>, ParseError>)
    ensures
        r matches Ok(v) ==> walked_from(files@, root_filename@, v@) && walk_finished(files@, v@),
        r matches Err(e) ==> exists|v: Seq<SheetEntry>, d: Seq<int>, f: Seq<char>|
            #[trigger] stuck(files@, root_filename@, v, d, f, e),
        dir_readable(files@) && has_file(files@, root_filename@) ==> r is Ok,
        !has_file(files@, root_filename@) ==> (r matches Err(ParseError::IoError(m)) && m@ == read_failure(
            root_filename@,
            "not found"@,
        )),
{
    let mut walk = SheetWalk::new(root_filename);
    let ghost names = files@.map_values(|f: DirFile| f.name@).to_set();
    let ghost mut unread = names;
    let ghost mut depths: Seq<int> = Seq::empty();
    proof {
        let nm = files@.map_values(|f: DirFile| f.name@);
        vstd::seq_lib::seq_to_set_is_finite(nm);
        assert forall|n: Seq<char>| #[trigger] unread.contains(n) <==> (has_file(files@, n) && !visited(walk.sheets@, n)) by {
            if has_file(files@, n) {
                let i = choose|i: int| 0 <= i < files@.len() && (#[trigger] files@[i]).name@ == n;
                assert(nm[i] == n);
                assert(nm.contains(n));
            }
            if unread.contains(n) {
                assert(nm.contains(n));
                let i = choose|i: int| 0 <= i < nm.len() && #[trigger] nm[i] == n;
                assert(files@[i].name@ == n);
            }
        }
    }
    loop
        invariant_except_break
            all_pending(files@, walk.sheets@, depths, walk.queue@, walk.sheets@.len() as int),
        invariant
            walk_state(files@, root_filename@, walk, depths),
            unread.finite(),
            forall|n: Seq<char>| #[trigger] unread.contains(n) <==> (has_file(files@, n) && !visited(walk.sheets@, n)),
        ensures
            walk.sheets@.len() > 0,
            walk_complete(files@, walk.sheets@, depths),
        decreases unread.len(),
    {
        let ghost before = walk;
        if walk.sheets.len() == 0 {
            assert(admissible(walk.sheets@, walk.queue@[0]));
        }
        match walk.next_file() {
            None => {
                proof {
                    lemma_pending_done(files@, walk.sheets@, depths, before.queue@);
                }
                break;
            },
            Some((filename, depth)) => {
                let ghost fname = filename@;
                match read_next(files, root_filename, &mut walk, filename, depth, Ghost(depths), Ghost(before)) {
                    Err(e) => {
                        proof {
                            lemma_stuck_facts(files@, root_filename@, before.sheets@, depths, fname, e);
                        }
                        return Err(e);
                    },
                    Ok(nd) => {
                        proof {
                            lemma_visited_push(before.sheets@, walk.sheets@, fname);
                            assert(unread.contains(fname));
                            vstd::set::axiom_set_remove_len(unread, fname);
                            vstd::set::axiom_set_remove_finite(unread, fname);
                            unread = unread.remove(fname);
                            depths = nd@;
                        }
                    },
                }
            },
        }
    }
    let ghost ws = walk.sheets@;
    let v = walk.into_sheets();
    proof {
        assert(v@ == ws);
        assert(walked_from(files@, root_filename@, v@));
        assert(walk_depths(files@, v@, depths) && walk_complete(files@, v@, depths));
    }
    Ok(v)
}

} // verus!
