//! S-expression trees as KiCad files use them: atoms (bare or quoted) and
//! parenthesised lists, with builders, single-line rendering and the
//! queries the KiCad readers use.

use vstd::prelude::*;


use crate::text::{append_chars, chars_eq, chars_of, decimal, i64_decimal, signed_decimal, string_from_chars, u64_decimal};

verus! {

broadcast use vstd::std_specs::vec::group_vec_axioms;

/// A leaf of an S-expression.
#[derive(Debug, Clone, PartialEq, Eq)]
pub enum Atom {
    /// Written as is (keywords, numbers, layer tokens).
    Raw(String),
    /// Written between double quotes.
    Quoted(String),
}

/// An S-expression.
#[derive(Debug, PartialEq, Eq)]
pub enum SExpr {
    Atom(Atom),
    List(Vec<SExpr>),
}

impl Atom {
    pub open spec fn text(self) -> Seq<char> {
        match self {
            Atom::Raw(s) => s@,
            Atom::Quoted(s) => s@,
        }
    }

    /// The atom's text, without quotes.
    pub fn as_str(&self) -> (r: &str)
        ensures
            r@ == self.text(),
    {
        match self {
            Atom::Raw(s) => s.as_str(),
            Atom::Quoted(s) => s.as_str(),
        }
    }
}

// ---------------------------------------------------------------------------
// Rendering
// ---------------------------------------------------------------------------

/// A quoted atom's text with `\` and `"` escaped by a backslash.
pub open spec fn escape_quoted(s: Seq<char>) -> Seq<char>
    decreases s.len(),
{
    if s.len() == 0 {
        s
    } else if s[0] == '\\' || s[0] == '"' {
        seq!['\\', s[0]] + escape_quoted(s.drop_first())
    } else {
        seq![s[0]] + escape_quoted(s.drop_first())
    }
}

pub open spec fn render_atom(a: Atom) -> Seq<char> {
    match a {
        Atom::Raw(s) => s@,
        Atom::Quoted(s) => seq!['"'] + escape_quoted(s@) + seq!['"'],
    }
}

/// One-line text of `e`: list items separated by single spaces.
pub open spec fn render_spec(e: SExpr) -> Seq<char>
    decreases e,
{
    match e {
        SExpr::Atom(a) => render_atom(a),
        SExpr::List(items) => seq!['('] + render_items(items@, 0) + seq![')'],
    }
}

/// Items `i..` of a list, separated by single spaces.
pub open spec fn render_items(items: Seq<SExpr>, i: int) -> Seq<char>
    decreases items, items.len() - i,
{
    if i < 0 || i >= items.len() {
        Seq::empty()
    } else {
        (if i > 0 {
            seq![' ']
        } else {
            Seq::empty()
        }) + render_spec(items[i]) + render_items(items, i + 1)
    }
}

proof fn lemma_escape_push(s: Seq<char>, c: char)
    ensures
        escape_quoted(s.push(c)) == escape_quoted(s) + (if c == '\\' || c == '"' {
            seq!['\\', c]
        } else {
            seq![c]
        }),
    decreases s.len(),
{
    let tail = if c == '\\' || c == '"' {
        seq!['\\', c]
    } else {
        seq![c]
    };
    if s.len() == 0 {
        assert(s.push(c).drop_first() =~= Seq::<char>::empty());
        assert(escape_quoted(s.push(c)) =~= tail + escape_quoted(Seq::<char>::empty()));
        assert(escape_quoted(s.push(c)) =~= escape_quoted(s) + tail);
    } else {
        assert(s.push(c).drop_first() =~= s.drop_first().push(c));
        lemma_escape_push(s.drop_first(), c);
        let head = if s[0] == '\\' || s[0] == '"' {
            seq!['\\', s[0]]
        } else {
            seq![s[0]]
        };
        assert(escape_quoted(s.push(c)) == head + escape_quoted(s.drop_first().push(c)));
        assert(escape_quoted(s) == head + escape_quoted(s.drop_first()));
        assert(escape_quoted(s.push(c)) =~= escape_quoted(s) + tail);
    }
}

fn render_atom_into(out: &mut Vec<char>, a: &Atom)
    ensures
        final(out)@ == old(out)@ + render_atom(*a),
{
    match a {
        Atom::Raw(s) => {
            let cs = chars_of(s.as_str());
            append_chars(out, cs.as_slice());
        },
        Atom::Quoted(s) => {
            let cs = chars_of(s.as_str());
            let ghost start = out@;
            out.push('"');
            let mut k: usize = 0;
            while k < cs.len()
                invariant
                    k <= cs.len(),
                    out@ == start + seq!['"'] + escape_quoted(cs@.subrange(0, k as int)),
                decreases cs.len() - k,
            {
                proof {
                    lemma_escape_push(cs@.subrange(0, k as int), cs@[k as int]);
                    assert(cs@.subrange(0, k + 1) =~= cs@.subrange(0, k as int).push(cs@[k as int]));
                }
                if cs[k] == '\\' || cs[k] == '"' {
                    out.push('\\');
                }
                out.push(cs[k]);
                k += 1;
            }
            out.push('"');
            assert(cs@.subrange(0, cs.len() as int) =~= cs@);
            assert(out@ =~= start + render_atom(*a));
        },
    }
}

pub(crate) fn render_into(out: &mut Vec<char>, e: &SExpr)
    ensures
        final(out)@ == old(out)@ + render_spec(*e),
    decreases e,
{
    match e {
        SExpr::Atom(a) => {
            render_atom_into(out, a);
        },
        SExpr::List(items) => {
            let ghost start = out@;
            out.push('(');
            let mut i: usize = 0;
            while i < items.len()
                invariant
                    i <= items@.len(),
                    *e == SExpr::List(*items),
                    out@ + render_items(items@, i as int) == start + seq!['('] + render_items(items@, 0),
                decreases items@.len() - i,
            {
                let ghost before = out@;
                if i > 0 {
                    out.push(' ');
                }
                proof {
                    assert(decreases_to!(*e => (*e)->List_0));
                    assert(decreases_to!(*items => items@[i as int]));
                }
                render_into(out, &items[i]);
                assert(out@ + render_items(items@, i + 1) =~= before + render_items(items@, i as int));
                i += 1;
            }
            out.push(')');
            assert(out@ =~= start + render_spec(*e));
        },
    }
}

impl SExpr {
    /// The one-line text of the expression (what `to_string` shows).
    pub fn render(&self) -> (r: String)
        ensures
            r@ == render_spec(*self),
    {
        let mut out: Vec<char> = Vec::new();
        render_into(&mut out, self);
        assert(out@ =~= render_spec(*self));
        string_from_chars(out.as_slice())
    }
}


// ---------------------------------------------------------------------------
// Shape
// ---------------------------------------------------------------------------

/// The mathematical shape of an S-expression: what a writer promises to
/// produce.
pub enum Tree {
    Raw(Seq<char>),
    Quoted(Seq<char>),
    List(Seq<Tree>),
}

pub open spec fn tree_of(e: SExpr) -> Tree
    decreases e,
{
    match e {
        SExpr::Atom(Atom::Raw(s)) => Tree::Raw(s@),
        SExpr::Atom(Atom::Quoted(s)) => Tree::Quoted(s@),
        SExpr::List(items) => Tree::List(trees_from(items@, 0)),
    }
}

/// The shapes of items `i..`.
pub open spec fn trees_from(items: Seq<SExpr>, i: int) -> Seq<Tree>
    decreases items, items.len() - i,
{
    if i < 0 || i >= items.len() {
        Seq::empty()
    } else {
        seq![tree_of(items[i])] + trees_from(items, i + 1)
    }
}

/// The shapes of a sequence of expressions, item by item.
pub open spec fn trees(items: Seq<SExpr>) -> Seq<Tree> {
    Seq::new(items.len(), |j: int| tree_of(items[j]))
}

/// `(keyword kids...)`.
pub open spec fn node_tree(keyword: Seq<char>, kids: Seq<Tree>) -> Tree {
    Tree::List(seq![Tree::Raw(keyword)] + kids)
}

pub proof fn lemma_trees_from(items: Seq<SExpr>, i: int)
    requires
        0 <= i <= items.len(),
    ensures
        trees_from(items, i) =~= Seq::new((items.len() - i) as nat, |j: int| tree_of(items[i + j])),
    decreases items.len() - i,
{
    if i < items.len() {
        lemma_trees_from(items, i + 1);
    }
}

/// The shape of a list is the shapes of its items.
pub broadcast proof fn lemma_tree_of_list(items: Vec<SExpr>)
    ensures
        #[trigger] tree_of(SExpr::List(items)) == Tree::List(trees(items@)),
{
    lemma_trees_from(items@, 0);
    assert(trees_from(items@, 0) =~= trees(items@));
}

pub proof fn lemma_node_tree(e: SExpr, keyword: Seq<char>, children: Seq<SExpr>)
    requires
        is_node(e, keyword, children),
    ensures
        tree_of(e) == node_tree(keyword, trees(children)),
{
    if let SExpr::List(items) = e {
        lemma_tree_of_list(items);
        assert(trees(items@) =~= seq![Tree::Raw(keyword)] + trees(children)) by {
            assert forall|j: int| 1 <= j < items@.len() implies items@[j] == children[j - 1] by {
                assert(items@.subrange(1, items@.len() as int)[j - 1] == items@[j]);
            }
        }
    }
}

/// One-line text of a shape, as `render_spec` writes an expression.
pub open spec fn render_tree(t: Tree) -> Seq<char>
    decreases t,
{
    match t {
        Tree::Raw(s) => s,
        Tree::Quoted(s) => seq!['"'] + escape_quoted(s) + seq!['"'],
        Tree::List(kids) => seq!['('] + render_tree_items(kids, 0) + seq![')'],
    }
}

pub open spec fn render_tree_items(kids: Seq<Tree>, i: int) -> Seq<char>
    decreases kids, kids.len() - i,
{
    if i < 0 || i >= kids.len() {
        Seq::empty()
    } else {
        (if i > 0 {
            seq![' ']
        } else {
            Seq::empty()
        }) + render_tree(kids[i]) + render_tree_items(kids, i + 1)
    }
}

/// An expression renders as its shape does.
pub proof fn lemma_render_tree(e: SExpr)
    ensures
        render_spec(e) == render_tree(tree_of(e)),
    decreases e,
{
    match e {
        SExpr::Atom(_) => {},
        SExpr::List(items) => {
            lemma_trees_from(items@, 0);
            lemma_render_tree_items(items@, 0);
        },
    }
}

proof fn lemma_render_tree_items(items: Seq<SExpr>, i: int)
    requires
        0 <= i <= items.len(),
        trees_from(items, 0) =~= Seq::new(items.len(), |j: int| tree_of(items[j])),
    ensures
        render_items(items, i) == render_tree_items(trees_from(items, 0), i),
    decreases items, items.len() - i,
{
    if i < items.len() {
        assert(decreases_to!(items => items[i]));
        lemma_render_tree(items[i]);
        lemma_render_tree_items(items, i + 1);
    }
}

pub proof fn lemma_trees_push(s: Seq<SExpr>, x: SExpr)
    ensures
        trees(s.push(x)) == trees(s).push(tree_of(x)),
{
    assert(trees(s.push(x)) =~= trees(s).push(tree_of(x)));
}

/// Appends `x` to a list under construction.
pub fn push_item(items: &mut Vec<SExpr>, x: SExpr)
    ensures
        final(items)@ == old(items)@.push(x),
        trees(final(items)@) == trees(old(items)@).push(tree_of(x)),
{
    proof {
        lemma_trees_push(old(items)@, x);
    }
    items.push(x);
}

// ---------------------------------------------------------------------------
// Builders
// ---------------------------------------------------------------------------

pub open spec fn is_raw_atom(e: SExpr, text: Seq<char>) -> bool {
    e matches SExpr::Atom(Atom::Raw(s)) && s@ == text
}

pub open spec fn is_quoted_atom(e: SExpr, text: Seq<char>) -> bool {
    e matches SExpr::Atom(Atom::Quoted(s)) && s@ == text
}

/// Values that become an S-expression node: expressions and atoms as they
/// are, text as a quoted atom, integers as a bare numeral.
pub trait IntoSExprNode: Sized {
    /// `e` is the node this value becomes.
    spec fn is_node_of(&self, e: SExpr) -> bool;

    fn into_sexpr_node(self) -> (e: SExpr)
        ensures
            self.is_node_of(e),
    ;
}

impl IntoSExprNode for SExpr {
    open spec fn is_node_of(&self, e: SExpr) -> bool {
        e == *self
    }

    fn into_sexpr_node(self) -> (e: SExpr) {
        self
    }
}

impl IntoSExprNode for Atom {
    open spec fn is_node_of(&self, e: SExpr) -> bool {
        e == SExpr::Atom(*self)
    }

    fn into_sexpr_node(self) -> (e: SExpr) {
        SExpr::Atom(self)
    }
}

impl IntoSExprNode for String {
    open spec fn is_node_of(&self, e: SExpr) -> bool {
        is_quoted_atom(e, self@)
    }

    fn into_sexpr_node(self) -> (e: SExpr) {
        SExpr::Atom(Atom::Quoted(self))
    }
}

impl<'a> IntoSExprNode for &'a str {
    open spec fn is_node_of(&self, e: SExpr) -> bool {
        is_quoted_atom(e, (*self)@)
    }

    fn into_sexpr_node(self) -> (e: SExpr) {
        quoted(self)
    }
}

impl<'a> IntoSExprNode for &'a String {
    open spec fn is_node_of(&self, e: SExpr) -> bool {
        is_quoted_atom(e, (*self)@)
    }

    fn into_sexpr_node(self) -> (e: SExpr) {
        quoted(self.as_str())
    }
}

impl IntoSExprNode for u64 {
    open spec fn is_node_of(&self, e: SExpr) -> bool {
        is_raw_atom(e, decimal(*self as nat))
    }

    fn into_sexpr_node(self) -> (e: SExpr) {
        let v = u64_decimal(self);
        SExpr::Atom(Atom::Raw(string_from_chars(v.as_slice())))
    }
}

impl IntoSExprNode for u32 {
    open spec fn is_node_of(&self, e: SExpr) -> bool {
        is_raw_atom(e, decimal(*self as nat))
    }

    fn into_sexpr_node(self) -> (e: SExpr) {
        let v = u64_decimal(self as u64);
        SExpr::Atom(Atom::Raw(string_from_chars(v.as_slice())))
    }
}

impl IntoSExprNode for u16 {
    open spec fn is_node_of(&self, e: SExpr) -> bool {
        is_raw_atom(e, decimal(*self as nat))
    }

    fn into_sexpr_node(self) -> (e: SExpr) {
        let v = u64_decimal(self as u64);
        SExpr::Atom(Atom::Raw(string_from_chars(v.as_slice())))
    }
}

impl IntoSExprNode for u8 {
    open spec fn is_node_of(&self, e: SExpr) -> bool {
        is_raw_atom(e, decimal(*self as nat))
    }

    fn into_sexpr_node(self) -> (e: SExpr) {
        let v = u64_decimal(self as u64);
        SExpr::Atom(Atom::Raw(string_from_chars(v.as_slice())))
    }
}

impl IntoSExprNode for usize {
    open spec fn is_node_of(&self, e: SExpr) -> bool {
        is_raw_atom(e, decimal(*self as nat))
    }

    fn into_sexpr_node(self) -> (e: SExpr) {
        let v = u64_decimal(self as u64);
        SExpr::Atom(Atom::Raw(string_from_chars(v.as_slice())))
    }
}

impl IntoSExprNode for i64 {
    open spec fn is_node_of(&self, e: SExpr) -> bool {
        is_raw_atom(e, signed_decimal(*self as int))
    }

    fn into_sexpr_node(self) -> (e: SExpr) {
        let v = i64_decimal(self);
        SExpr::Atom(Atom::Raw(string_from_chars(v.as_slice())))
    }
}

impl IntoSExprNode for i32 {
    open spec fn is_node_of(&self, e: SExpr) -> bool {
        is_raw_atom(e, signed_decimal(*self as int))
    }

    fn into_sexpr_node(self) -> (e: SExpr) {
        let v = i64_decimal(self as i64);
        SExpr::Atom(Atom::Raw(string_from_chars(v.as_slice())))
    }
}

impl IntoSExprNode for i16 {
    open spec fn is_node_of(&self, e: SExpr) -> bool {
        is_raw_atom(e, signed_decimal(*self as int))
    }

    fn into_sexpr_node(self) -> (e: SExpr) {
        let v = i64_decimal(self as i64);
        SExpr::Atom(Atom::Raw(string_from_chars(v.as_slice())))
    }
}

impl IntoSExprNode for i8 {
    open spec fn is_node_of(&self, e: SExpr) -> bool {
        is_raw_atom(e, signed_decimal(*self as int))
    }

    fn into_sexpr_node(self) -> (e: SExpr) {
        let v = i64_decimal(self as i64);
        SExpr::Atom(Atom::Raw(string_from_chars(v.as_slice())))
    }
}

impl IntoSExprNode for isize {
    open spec fn is_node_of(&self, e: SExpr) -> bool {
        is_raw_atom(e, signed_decimal(*self as int))
    }

    fn into_sexpr_node(self) -> (e: SExpr) {
        let v = i64_decimal(self as i64);
        SExpr::Atom(Atom::Raw(string_from_chars(v.as_slice())))
    }
}

/// The node for `value`: see `IntoSExprNode`.
pub fn atom<T: IntoSExprNode>(value: T) -> (e: SExpr)
    ensures
        value.is_node_of(e),
{
    value.into_sexpr_node()
}

/// A bare atom.
pub fn raw(value: &str) -> (e: SExpr)
    ensures
        is_raw_atom(e, value@),
        tree_of(e) == Tree::Raw(value@),
{
    SExpr::Atom(Atom::Raw(value.to_owned()))
}

/// A quoted atom.
pub fn quoted(value: &str) -> (e: SExpr)
    ensures
        is_quoted_atom(e, value@),
        tree_of(e) == Tree::Quoted(value@),
{
    SExpr::Atom(Atom::Quoted(value.to_owned()))
}

/// A list of `items`.
pub fn list(items: Vec<SExpr>) -> (e: SExpr)
    ensures
        e == SExpr::List(items),
{
    SExpr::List(items)
}

/// `e` is the list `(keyword children...)`.
pub open spec fn is_node(e: SExpr, keyword: Seq<char>, children: Seq<SExpr>) -> bool {
    e matches SExpr::List(items) && items@.len() == children.len() + 1 && is_raw_atom(
        items@[0],
        keyword,
    ) && items@.subrange(1, items@.len() as int) == children
}

/// The list `(keyword children...)`.
pub fn node(keyword: &str, children: Vec<SExpr>) -> (e: SExpr)
    ensures
        is_node(e, keyword@, children@),
        tree_of(e) == node_tree(keyword@, trees(children@)),
{
    let mut items: Vec<SExpr> = Vec::new();
    items.push(raw(keyword));
    let mut children = children;
    let ghost ch = children@;
    items.append(&mut children);
    assert(items@.subrange(1, items@.len() as int) =~= ch);
    let e = SExpr::List(items);
    proof {
        lemma_node_tree(e, keyword@, ch);
    }
    e
}

/// `(keyword yes)` or `(keyword no)`.
pub fn yes_no_node(keyword: &str, value: bool) -> (e: SExpr)
    ensures
        tree_of(e) == node_tree(keyword@, seq![Tree::Raw(if value { "yes"@ } else { "no"@ })]),
        e matches SExpr::List(items) && items@.len() == 2 && is_raw_atom(items@[0], keyword@)
            && is_raw_atom(items@[1], if value {
            "yes"@
        } else {
            "no"@
        }),
{
    let mut items: Vec<SExpr> = Vec::new();
    items.push(raw(keyword));
    items.push(raw(if value {
        "yes"
    } else {
        "no"
    }));
    proof {
        lemma_tree_of_list(items);
        assert(trees(items@) =~= seq![Tree::Raw(keyword@), Tree::Raw(if value { "yes"@ } else { "no"@ })]);
        assert(seq![Tree::Raw(keyword@), Tree::Raw(if value { "yes"@ } else { "no"@ })] =~= seq![Tree::Raw(keyword@)] + seq![Tree::Raw(if value { "yes"@ } else { "no"@ })]);
    }
    SExpr::List(items)
}

/// `(hide yes)`.
pub fn hide_yes_node() -> (e: SExpr)
    ensures
        tree_of(e) == node_tree("hide"@, seq![Tree::Raw("yes"@)]),
        e matches SExpr::List(items) && items@.len() == 2 && is_raw_atom(items@[0], "hide"@)
            && is_raw_atom(items@[1], "yes"@),
{
    yes_no_node("hide", true)
}


// ---------------------------------------------------------------------------
// Queries
// ---------------------------------------------------------------------------

/// The items of a list; an atom has none.
pub open spec fn children_spec(e: SExpr) -> Seq<SExpr> {
    match e {
        SExpr::List(items) => items@,
        SExpr::Atom(_) => Seq::empty(),
    }
}

/// The text of the list's leading atom.
pub open spec fn keyword_spec(e: SExpr) -> Option<Seq<char>> {
    match e {
        SExpr::List(items) => if items@.len() > 0 {
            match items@[0] {
                SExpr::Atom(a) => Some(a.text()),
                SExpr::List(_) => None,
            }
        } else {
            None
        },
        SExpr::Atom(_) => None,
    }
}

/// The text of argument `i`: the atom after the keyword at offset `i`.
pub open spec fn arg_spec(e: SExpr, i: int) -> Option<Seq<char>> {
    let items = children_spec(e);
    if 0 <= i && i + 1 < items.len() {
        match items[i + 1] {
            SExpr::Atom(a) => Some(a.text()),
            SExpr::List(_) => None,
        }
    } else {
        None
    }
}

/// Index of the first child, at or after `k`, whose keyword is `name`.
pub open spec fn find_from(items: Seq<SExpr>, k: int, name: Seq<char>) -> Option<int>
    decreases items.len() - k,
{
    if k < 0 || k >= items.len() {
        None
    } else if keyword_spec(items[k]) == Some(name) {
        Some(k)
    } else {
        find_from(items, k + 1, name)
    }
}

/// The children whose keyword is `name`, in order, from index `k` on.
pub open spec fn find_all_from(items: Seq<SExpr>, k: int, name: Seq<char>) -> Seq<SExpr>
    decreases items.len() - k,
{
    if k < 0 || k >= items.len() {
        Seq::empty()
    } else if keyword_spec(items[k]) == Some(name) {
        seq![items[k]] + find_all_from(items, k + 1, name)
    } else {
        find_all_from(items, k + 1, name)
    }
}

pub open spec fn find_spec(e: SExpr, name: Seq<char>) -> Option<SExpr> {
    match find_from(children_spec(e), 0, name) {
        Some(k) => Some(children_spec(e)[k]),
        None => None,
    }
}

pub open spec fn find_all_spec(e: SExpr, name: Seq<char>) -> Seq<SExpr> {
    find_all_from(children_spec(e), 0, name)
}

pub open spec fn opt_str_view(o: Option<&str>) -> Option<Seq<char>> {
    match o {
        Some(t) => Some(t@),
        None => None,
    }
}

pub open spec fn opt_ref_view(o: Option<&SExpr>) -> Option<SExpr> {
    match o {
        Some(t) => Some(*t),
        None => None,
    }
}

pub open spec fn refs_view(v: Seq<&SExpr>) -> Seq<SExpr> {
    v.map_values(|r: &SExpr| *r)
}

proof fn lemma_find_from_bounds(items: Seq<SExpr>, k: int, name: Seq<char>)
    requires
        0 <= k,
    ensures
        find_from(items, k, name) matches Some(j) ==> k <= j < items.len(),
    decreases items.len() - k,
{
    if k < items.len() && keyword_spec(items[k]) != Some(name) {
        lemma_find_from_bounds(items, k + 1, name);
    }
}

impl SExpr {
    /// The items of a list; empty for an atom.
    pub fn children(&self) -> (r: &[SExpr])
        ensures
            r@ == children_spec(*self),
    {
        match self {
            SExpr::List(items) => items.as_slice(),
            SExpr::Atom(_) => &[],
        }
    }

    /// The text of the list's leading atom.
    pub fn keyword(&self) -> (r: Option<&str>)
        ensures
            opt_str_view(r) == keyword_spec(*self),
    {
        match self {
            SExpr::List(items) => {
                if items.len() > 0 {
                    match &items[0] {
                        SExpr::Atom(a) => Some(a.as_str()),
                        SExpr::List(_) => None,
                    }
                } else {
                    None
                }
            },
            SExpr::Atom(_) => None,
        }
    }

    /// The text of argument `i` (the atom at offset `i` after the keyword).
    pub fn arg(&self, i: usize) -> (r: Option<&str>)
        ensures
            opt_str_view(r) == arg_spec(*self, i as int),
    {
        let items = self.children();
        if i < items.len() && i + 1 < items.len() {
            match &items[i + 1] {
                SExpr::Atom(a) => Some(a.as_str()),
                SExpr::List(_) => None,
            }
        } else {
            None
        }
    }

    /// The text of the first argument.
    pub fn first_arg(&self) -> (r: Option<&str>)
        ensures
            opt_str_view(r) == arg_spec(*self, 0),
    {
        self.arg(0)
    }

    /// The first child list whose keyword is `name`.
    pub fn find(&self, name: &str) -> (r: Option<&SExpr>)
        ensures
            opt_ref_view(r) == find_spec(*self, name@),
    {
        let items = self.children();
        let mut k: usize = 0;
        while k < items.len()
            invariant
                k <= items@.len(),
                items@ == children_spec(*self),
                find_from(items@, k as int, name@) == find_from(items@, 0, name@),
            decreases items.len() - k,
        {
            let hit = match items[k].keyword() {
                Some(kw) => {
                    let a = chars_of(kw);
                    let b = chars_of(name);
                    chars_eq(a.as_slice(), b.as_slice())
                },
                None => false,
            };
            if hit {
                return Some(&items[k]);
            }
            k += 1;
        }
        None
    }

    /// Every child list whose keyword is `name`, in order.
    pub fn find_all(&self, name: &str) -> (r: Vec<&SExpr>)
        ensures
            refs_view(r@) == find_all_spec(*self, name@),
    {
        let items = self.children();
        let mut out: Vec<&SExpr> = Vec::new();
        let mut k: usize = 0;
        assert(refs_view(out@) =~= Seq::<SExpr>::empty());
        while k < items.len()
            invariant
                k <= items@.len(),
                items@ == children_spec(*self),
                refs_view(out@) + find_all_from(items@, k as int, name@) == find_all_from(
                    items@,
                    0,
                    name@,
                ),
            decreases items.len() - k,
        {
            let hit = match items[k].keyword() {
                Some(kw) => {
                    let a = chars_of(kw);
                    let b = chars_of(name);
                    chars_eq(a.as_slice(), b.as_slice())
                },
                None => false,
            };
            if hit {
                let ghost before = out@;
                out.push(&items[k]);
                assert(refs_view(out@) =~= refs_view(before) + seq![items@[k as int]]);
                assert(refs_view(out@) + find_all_from(items@, k + 1, name@) =~= refs_view(before)
                    + find_all_from(items@, k as int, name@));
            }
            k += 1;
        }
        assert(refs_view(out@) =~= find_all_from(items@, 0, name@));
        out
    }
}

} // verus!
