//! Reading S-expression text: lists in parentheses, quoted atoms with
//! `\"` and `\\` escapes, and bare atoms, separated by whitespace.

use vstd::prelude::*;

use crate::error::ParseError;
use crate::sexpr::{
    escape_quoted, lemma_trees_from, lemma_trees_push, list, quoted, raw, render_tree, render_tree_items, tree_of, trees,
    SExpr, Tree,
};
use crate::text::{chars_of, is_whitespace_char, is_ws, lemma_skip_ws_bounds, skip_ws, string_from_chars};

verus! {

broadcast use vstd::std_specs::vec::group_vec_axioms;

/// End of the bare atom that starts at `i`: the first whitespace or
/// parenthesis at or after `i`.
pub open spec fn raw_end(s: Seq<char>, i: int) -> int
    decreases s.len() - i,
{
    if i < 0 || i >= s.len() || is_ws(s[i]) || s[i] == '(' || s[i] == ')' {
        i
    } else {
        raw_end(s, i + 1)
    }
}

/// The body of a quoted atom read from `i` (just after the opening quote)
/// onto `acc`, and the position after the closing quote: `\"` and `\\`
/// stand for `"` and `\`; any other character stands for itself.
pub open spec fn quoted_from(s: Seq<char>, i: int, acc: Seq<char>) -> Option<(Seq<char>, int)>
    decreases s.len() - i,
{
    if i < 0 || i >= s.len() {
        None
    } else if s[i] == '"' {
        Some((acc, i + 1))
    } else if s[i] == '\\' && i + 1 < s.len() && (s[i + 1] == '"' || s[i + 1] == '\\') {
        quoted_from(s, i + 2, acc.push(s[i + 1]))
    } else {
        quoted_from(s, i + 1, acc.push(s[i]))
    }
}

/// The expression that starts at `i` (after whitespace), and the position
/// after it; `None` at the end of the text, at a `)`, or where a list or
/// quoted atom is not closed.
pub open spec fn expr_at(s: Seq<char>, i: int) -> Option<(Tree, int)>
    decreases s.len() - i, 0int,
{
    let j = skip_ws(s, i);
    if i < 0 || j < i || j >= s.len() {
        None
    } else if s[j] == '(' {
        match items_at(s, j + 1, Seq::empty()) {
            Some((kids, n)) => Some((Tree::List(kids), n)),
            None => None,
        }
    } else if s[j] == ')' {
        None
    } else if s[j] == '"' {
        match quoted_from(s, j + 1, Seq::empty()) {
            Some((t, n)) => Some((Tree::Quoted(t), n)),
            None => None,
        }
    } else {
        Some((Tree::Raw(s.subrange(j, raw_end(s, j))), raw_end(s, j)))
    }
}

/// The items of a list read from `i` onto `acc`, up to and past the
/// closing `)`.
pub open spec fn items_at(s: Seq<char>, i: int, acc: Seq<Tree>) -> Option<(Seq<Tree>, int)>
    decreases s.len() - i, 1int,
{
    let j = skip_ws(s, i);
    if i < 0 || j < i || j >= s.len() {
        None
    } else if s[j] == ')' {
        Some((acc, j + 1))
    } else {
        match expr_at(s, j) {
            Some((t, n)) => if j < n <= s.len() {
                items_at(s, n, acc.push(t))
            } else {
                None
            },
            None => None,
        }
    }
}

/// The expression a text holds: one expression, with nothing but
/// whitespace around it.
pub open spec fn read_spec(s: Seq<char>) -> Option<Tree> {
    match expr_at(s, 0) {
        Some((t, n)) => if skip_ws(s, n) == s.len() {
            Some(t)
        } else {
            None
        },
        None => None,
    }
}

fn ws_end(s: &Vec<char>, i: usize) -> (j: usize)
    requires
        i <= s.len(),
    ensures
        j as int == skip_ws(s@, i as int),
        i <= j <= s.len(),
{
    proof {
        lemma_skip_ws_bounds(s@, i as int);
    }
    let mut j = i;
    while j < s.len() && is_whitespace_char(s[j])
        invariant
            i <= j <= s.len(),
            skip_ws(s@, j as int) == skip_ws(s@, i as int),
        decreases s.len() - j,
    {
        j += 1;
    }
    j
}

fn read_raw(s: &Vec<char>, i: usize) -> (r: (String, usize))
    requires
        i <= s.len(),
    ensures
        r.1 as int == raw_end(s@, i as int),
        r.0@ == s@.subrange(i as int, r.1 as int),
        i <= r.1 <= s.len(),
{
    let mut j = i;
    let mut out: Vec<char> = Vec::new();
    while j < s.len() && !is_whitespace_char(s[j]) && s[j] != '(' && s[j] != ')'
        invariant
            i <= j <= s.len(),
            raw_end(s@, j as int) == raw_end(s@, i as int),
            out@ == s@.subrange(i as int, j as int),
        decreases s.len() - j,
    {
        out.push(s[j]);
        j += 1;
        assert(out@ =~= s@.subrange(i as int, j as int));
    }
    (string_from_chars(out.as_slice()), j)
}

fn read_quoted(s: &Vec<char>, i: usize) -> (r: Option<(String, usize)>)
    requires
        i <= s.len(),
    ensures
        match quoted_from(s@, i as int, Seq::empty()) {
            Some((t, n)) => r matches Some((x, m)) && x@ == t && m as int == n,
            None => r is None,
        },
        r matches Some((x, m)) ==> m <= s.len(),
{
    let mut j = i;
    let mut out: Vec<char> = Vec::new();
    while j < s.len()
        invariant
            i <= j <= s.len(),
            quoted_from(s@, j as int, out@) == quoted_from(s@, i as int, Seq::empty()),
        decreases s.len() - j,
    {
        if s[j] == '"' {
            return Some((string_from_chars(out.as_slice()), j + 1));
        } else if s[j] == '\\' && j + 1 < s.len() && (s[j + 1] == '"' || s[j + 1] == '\\') {
            out.push(s[j + 1]);
            j += 2;
        } else {
            out.push(s[j]);
            j += 1;
        }
    }
    None
}

fn read_expr(s: &Vec<char>, i: usize) -> (r: Option<(SExpr, usize)>)
    requires
        i <= s.len(),
    ensures
        match expr_at(s@, i as int) {
            Some((t, n)) => r matches Some((e, m)) && tree_of(e) == t && m as int == n && m <= s.len(),
            None => r is None,
        },
    decreases s.len() - i, 0int,
{
    let j = ws_end(s, i);
    if j >= s.len() {
        return None;
    }
    if s[j] == '(' {
        let acc: Vec<SExpr> = Vec::new();
        assert(trees(acc@) =~= Seq::<Tree>::empty());
        match read_items(s, j + 1, acc) {
            Some((v, n)) => {
                proof {
                    lemma_trees_from(v@, 0);
                    assert(trees(v@) =~= crate::sexpr::trees_from(v@, 0));
                }
                Some((list(v), n))
            },
            None => None,
        }
    } else if s[j] == ')' {
        None
    } else if s[j] == '"' {
        match read_quoted(s, j + 1) {
            Some((t, n)) => Some((quoted(t.as_str()), n)),
            None => None,
        }
    } else {
        let (t, n) = read_raw(s, j);
        Some((raw(t.as_str()), n))
    }
}

fn read_items(s: &Vec<char>, i: usize, acc: Vec<SExpr>) -> (r: Option<(Vec<SExpr>, usize)>)
    requires
        i <= s.len(),
    ensures
        match items_at(s@, i as int, trees(acc@)) {
            Some((kids, n)) => r matches Some((v, m)) && trees(v@) == kids && m as int == n && m <= s.len(),
            None => r is None,
        },
    decreases s.len() - i, 1int,
{
    let j = ws_end(s, i);
    if j >= s.len() {
        return None;
    }
    if s[j] == ')' {
        return Some((acc, j + 1));
    }
    match read_expr(s, j) {
        Some((e, n)) => {
            if j < n && n <= s.len() {
                let mut acc = acc;
                let ghost before = acc@;
                acc.push(e);
                proof {
                    lemma_trees_push(before, e);
                }
                read_items(s, n, acc)
            } else {
                None
            }
        },
        None => None,
    }
}

/// Reads the S-expression that `text` holds; anything else, including
/// text after the expression, is malformed.
pub fn parse(text: &str) -> (r: Result<SExpr, ParseError>)
    ensures
        match read_spec(text@) {
            Some(t) => r matches Ok(e) && tree_of(e) == t,
            None => r matches Err(ParseError::InvalidSExpr(m)) && m@ == "malformed S-expression"@,
        },
{
    let s = chars_of(text);
    match read_expr(&s, 0) {
        Some((e, n)) => {
            if ws_end(&s, n) == s.len() {
                Ok(e)
            } else {
                Err(ParseError::InvalidSExpr("malformed S-expression".to_owned()))
            }
        },
        None => Err(ParseError::InvalidSExpr("malformed S-expression".to_owned())),
    }
}

// ---------------------------------------------------------------------------
// Reading back what is written
// ---------------------------------------------------------------------------

/// `t` stands in `s` at `i`.
pub open spec fn text_at(s: Seq<char>, i: int, t: Seq<char>) -> bool {
    0 <= i && i + t.len() <= s.len() && forall|k: int| 0 <= k < t.len() ==> s[i + k] == #[trigger] t[k]
}

/// Text a bare atom can hold and be read back: not empty, not starting
/// with a quote, without whitespace or parentheses.
pub open spec fn bare_text(a: Seq<char>) -> bool {
    &&& a.len() > 0
    &&& a[0] != '"'
    &&& forall|k: int| 0 <= k < a.len() ==> !is_ws(#[trigger] a[k]) && a[k] != '(' && a[k] != ')'
}

/// A shape whose text reads back as itself: every bare atom is bare text.
pub open spec fn readable_tree(t: Tree) -> bool
    decreases t,
{
    match t {
        Tree::Raw(a) => bare_text(a),
        Tree::Quoted(_) => true,
        Tree::List(kids) => forall|k: int| 0 <= k < kids.len() ==> readable_tree(#[trigger] kids[k]),
    }
}

/// Where an expression's text may end: at the end, before whitespace or
/// before a parenthesis.
pub open spec fn ends_expr(s: Seq<char>, i: int) -> bool {
    i == s.len() || (0 <= i < s.len() && (is_ws(s[i]) || s[i] == '(' || s[i] == ')'))
}

proof fn lemma_text_at_split(s: Seq<char>, i: int, a: Seq<char>, b: Seq<char>)
    requires
        text_at(s, i, a + b),
    ensures
        text_at(s, i, a),
        text_at(s, i + a.len(), b),
{
    assert forall|k: int| 0 <= k < a.len() implies s[i + k] == #[trigger] a[k] by {
        assert((a + b)[k] == a[k]);
    }
    assert forall|k: int| 0 <= k < b.len() implies s[i + a.len() + k] == #[trigger] b[k] by {
        assert((a + b)[a.len() + k] == b[k]);
    }
}

proof fn lemma_read_quoted(s: Seq<char>, i: int, q: Seq<char>, acc: Seq<char>)
    requires
        text_at(s, i, escape_quoted(q) + seq!['"']),
    ensures
        quoted_from(s, i, acc) == Some((acc + q, i + escape_quoted(q).len() + 1)),
    decreases q.len(),
{
    if q.len() == 0 {
        assert((escape_quoted(q) + seq!['"'])[0] == '"');
        assert(acc + q =~= acc);
    } else {
        let r = q.drop_first();
        if q[0] == '\\' || q[0] == '"' {
            assert(escape_quoted(q) == seq!['\\', q[0]] + escape_quoted(r));
            let w = seq!['\\', q[0]] + (escape_quoted(r) + seq!['"']);
            assert(escape_quoted(q) + seq!['"'] =~= w);
            lemma_text_at_split(s, i, seq!['\\', q[0]], escape_quoted(r) + seq!['"']);
            assert(s[i] == '\\' && s[i + 1] == q[0]);
            lemma_read_quoted(s, i + 2, r, acc.push(q[0]));
            assert(acc.push(q[0]) + r =~= acc + q);
        } else {
            assert(escape_quoted(q) == seq![q[0]] + escape_quoted(r));
            let w = seq![q[0]] + (escape_quoted(r) + seq!['"']);
            assert(escape_quoted(q) + seq!['"'] =~= w);
            lemma_text_at_split(s, i, seq![q[0]], escape_quoted(r) + seq!['"']);
            assert(seq![q[0]][0] == q[0]);
            assert(s[i + 0] == seq![q[0]][0]);
            assert(s[i] == q[0]);
            lemma_read_quoted(s, i + 1, r, acc.push(q[0]));
            assert(acc.push(q[0]) + r =~= acc + q);
        }
    }
}

proof fn lemma_raw_end(s: Seq<char>, i: int, a: Seq<char>, k: int)
    requires
        text_at(s, i, a),
        forall|m: int| 0 <= m < a.len() ==> !is_ws(#[trigger] a[m]) && a[m] != '(' && a[m] != ')',
        ends_expr(s, i + a.len()),
        0 <= k <= a.len(),
    ensures
        raw_end(s, i + k) == i + a.len(),
    decreases a.len() - k,
{
    if k < a.len() {
        assert(s[i + k] == a[k]);
        lemma_raw_end(s, i, a, k + 1);
    }
}

/// The first character of a readable shape's text is no whitespace.
proof fn lemma_render_start(t: Tree)
    requires
        readable_tree(t),
    ensures
        render_tree(t).len() > 0,
        !is_ws(render_tree(t)[0]),
        render_tree(t)[0] != ')',
        t is Raw ==> render_tree(t)[0] != '(' && render_tree(t)[0] != '"',
        t is Quoted ==> render_tree(t)[0] == '"',
        t is List ==> render_tree(t)[0] == '(',
{
    match t {
        Tree::Raw(a) => {
            assert(!is_ws(a[0]));
        },
        Tree::Quoted(q) => {
            assert(render_tree(t) == seq!['"'] + escape_quoted(q) + seq!['"']);
        },
        Tree::List(kids) => {
            assert(render_tree(t) == seq!['('] + render_tree_items(kids, 0) + seq![')']);
        },
    }
}

proof fn lemma_read_expr(s: Seq<char>, i: int, t: Tree)
    requires
        readable_tree(t),
        text_at(s, i, render_tree(t)),
        ends_expr(s, i + render_tree(t).len()),
    ensures
        expr_at(s, i) == Some((t, i + render_tree(t).len())),
    decreases t, 0int,
{
    lemma_render_start(t);
    assert(s[i] == render_tree(t)[0]);
    assert(skip_ws(s, i) == i);
    let l = render_tree(t).len();
    match t {
        Tree::Raw(a) => {
            lemma_raw_end(s, i, a, 0);
            assert(s.subrange(i, i + l) =~= a);
        },
        Tree::Quoted(q) => {
            assert(render_tree(t) == seq!['"'] + (escape_quoted(q) + seq!['"']));
            lemma_text_at_split(s, i, seq!['"'], escape_quoted(q) + seq!['"']);
            lemma_read_quoted(s, i + 1, q, Seq::empty());
            assert(Seq::<char>::empty() + q =~= q);
        },
        Tree::List(kids) => {
            assert(render_tree(t) == seq!['('] + (render_tree_items(kids, 0) + seq![')']));
            lemma_text_at_split(s, i, seq!['('], render_tree_items(kids, 0) + seq![')']);
            lemma_read_items(s, i + 1, kids, 0, Seq::empty());
            assert(Seq::<Tree>::empty() + kids.subrange(0, kids.len() as int) =~= kids);
        },
    }
}

proof fn lemma_read_items(s: Seq<char>, p: int, kids: Seq<Tree>, m: int, acc: Seq<Tree>)
    requires
        forall|k: int| 0 <= k < kids.len() ==> readable_tree(#[trigger] kids[k]),
        0 <= m <= kids.len(),
        text_at(s, p, render_tree_items(kids, m) + seq![')']),
    ensures
        items_at(s, p, acc) == Some((acc + kids.subrange(m, kids.len() as int), p + render_tree_items(kids, m).len() + 1)),
    decreases kids, kids.len() - m,
{
    if m == kids.len() {
        assert(render_tree_items(kids, m).len() == 0);
        assert((render_tree_items(kids, m) + seq![')'])[0] == ')');
        assert(s[p] == ')');
        assert(skip_ws(s, p) == p);
        assert(acc + kids.subrange(m, kids.len() as int) =~= acc);
    } else {
        let sep: Seq<char> = if m > 0 { seq![' '] } else { Seq::empty() };
        let item = render_tree(kids[m]);
        let rest = render_tree_items(kids, m + 1);
        assert(render_tree_items(kids, m) == sep + item + rest);
        assert(render_tree_items(kids, m) + seq![')'] =~= sep + (item + (rest + seq![')'])));
        lemma_text_at_split(s, p, sep, item + (rest + seq![')']));
        let j = p + sep.len();
        lemma_text_at_split(s, j, item, rest + seq![')']);
        lemma_render_start(kids[m]);
        assert(s[j] == item[0]);
        if m > 0 {
            assert(sep[0] == ' ');
            assert(s[p + 0] == sep[0]);
            assert(s[p] == ' ');
            assert(skip_ws(s, p + 1) == p + 1);
        }
        assert(skip_ws(s, p) == j);
        let n = j + item.len();
        if m + 1 < kids.len() {
            assert(rest == seq![' '] + render_tree(kids[m + 1]) + render_tree_items(kids, m + 2));
            assert((rest + seq![')'])[0] == ' ');
        } else {
            assert(rest.len() == 0);
            assert((rest + seq![')'])[0] == ')');
        }
        assert(s[n] == (rest + seq![')'])[0]);
        lemma_read_expr(s, j, kids[m]);
        lemma_read_items(s, n, kids, m + 1, acc.push(kids[m]));
        assert(acc.push(kids[m]) + kids.subrange(m + 1, kids.len() as int) =~= acc + kids.subrange(m, kids.len() as int));
    }
}

/// What `render_tree` writes, a line ending after it, reads back as the
/// same shape, when every bare atom is bare text.
pub proof fn lemma_read_rendered(t: Tree)
    requires
        readable_tree(t),
    ensures
        read_spec(render_tree(t) + seq!['\n']) == Some(t),
{
    let s = render_tree(t) + seq!['\n'];
    let l = render_tree(t).len() as int;
    assert forall|k: int| 0 <= k < l implies s[0 + k] == #[trigger] render_tree(t)[k] by {}
    assert(s[l] == '\n');
    lemma_read_expr(s, 0, t);
    assert(skip_ws(s, l + 1) == l + 1);
    assert(skip_ws(s, l) == l + 1);
}

} // verus!
