//! Reading KiCad schematic S-expressions: the token vocabularies and the
//! integer- and text-valued parts of a sheet.

use vstd::prelude::*;

use crate::schematic::{
    FillType, HAlign, PinDirection, PinShapeStyle, SheetInstance, SymbolInstance, VAlign,
};
use crate::sexpr::{arg_spec, children_spec, find_all_spec, find_spec, keyword_spec, SExpr, Atom};
use crate::text::{chars_eq, chars_of, concat_str, str_eq, trim_chars, trim_spec};
use crate::varmap::VarMap;

verus! {

broadcast use vstd::string::group_string_axioms;

// ---------------------------------------------------------------------------
// Token vocabularies
// ---------------------------------------------------------------------------

pub open spec fn halign_of(s: Seq<char>) -> HAlign {
    if s == "left"@ {
        HAlign::Left
    } else if s == "right"@ {
        HAlign::Right
    } else {
        HAlign::Center
    }
}

/// KiCad's horizontal justification token; anything else is centred.
pub fn parse_halign(s: &str) -> (r: HAlign)
    ensures
        r == halign_of(s@),
{
    if str_eq(s, "left") {
        HAlign::Left
    } else if str_eq(s, "right") {
        HAlign::Right
    } else {
        HAlign::Center
    }
}

pub open spec fn valign_of(s: Seq<char>) -> VAlign {
    if s == "top"@ {
        VAlign::Top
    } else if s == "bottom"@ {
        VAlign::Bottom
    } else {
        VAlign::Center
    }
}

/// KiCad's vertical justification token; anything else is centred.
pub fn parse_valign(s: &str) -> (r: VAlign)
    ensures
        r == valign_of(s@),
{
    if str_eq(s, "top") {
        VAlign::Top
    } else if str_eq(s, "bottom") {
        VAlign::Bottom
    } else {
        VAlign::Center
    }
}

pub open spec fn pin_electrical_spec(s: Seq<char>) -> PinDirection {
    if s == "input"@ {
        PinDirection::Input
    } else if s == "output"@ {
        PinDirection::Output
    } else if s == "bidirectional"@ {
        PinDirection::Bidirectional
    } else if s == "tri_state"@ {
        PinDirection::ThreeStatable
    } else if s == "passive"@ {
        PinDirection::Passive
    } else if s == "free"@ {
        PinDirection::Unclassified
    } else if s == "power_in"@ {
        PinDirection::PowerInput
    } else if s == "power_out"@ {
        PinDirection::PowerOutput
    } else if s == "open_collector"@ {
        PinDirection::OpenDrainLow
    } else if s == "open_emitter"@ {
        PinDirection::OpenDrainHigh
    } else if s == "no_connect"@ || s == "not_connected"@ {
        PinDirection::DoNotConnect
    } else {
        PinDirection::Unclassified
    }
}

/// The pin direction a KiCad electrical-type token names; the legacy
/// `not_connected` spelling is read like `no_connect`, anything unknown is
/// unclassified.
pub fn parse_pin_electrical_type(s: &str) -> (r: PinDirection)
    ensures
        r == pin_electrical_spec(s@),
{
    if str_eq(s, "input") {
        PinDirection::Input
    } else if str_eq(s, "output") {
        PinDirection::Output
    } else if str_eq(s, "bidirectional") {
        PinDirection::Bidirectional
    } else if str_eq(s, "tri_state") {
        PinDirection::ThreeStatable
    } else if str_eq(s, "passive") {
        PinDirection::Passive
    } else if str_eq(s, "free") {
        PinDirection::Unclassified
    } else if str_eq(s, "power_in") {
        PinDirection::PowerInput
    } else if str_eq(s, "power_out") {
        PinDirection::PowerOutput
    } else if str_eq(s, "open_collector") {
        PinDirection::OpenDrainLow
    } else if str_eq(s, "open_emitter") {
        PinDirection::OpenDrainHigh
    } else if str_eq(s, "no_connect") || str_eq(s, "not_connected") {
        PinDirection::DoNotConnect
    } else {
        PinDirection::Unclassified
    }
}

pub open spec fn pin_shape_spec(s: Seq<char>) -> PinShapeStyle {
    if s == "inverted"@ {
        PinShapeStyle::InvertedBubble
    } else if s == "clock"@ {
        PinShapeStyle::ClockTriangle
    } else if s == "inverted_clock"@ {
        PinShapeStyle::InvertedClockBubble
    } else if s == "input_low"@ {
        PinShapeStyle::InvertedBubble
    } else if s == "clock_low"@ {
        PinShapeStyle::InvertedClockBubble
    } else if s == "output_low"@ {
        PinShapeStyle::InvertedBubble
    } else if s == "edge_clock_high"@ {
        PinShapeStyle::ClockTriangle
    } else {
        PinShapeStyle::Plain
    }
}

/// The pin decoration a KiCad pin-shape token names; the active-low
/// variants fold onto the bubble shapes, anything else is plain.
pub fn parse_pin_shape(s: &str) -> (r: PinShapeStyle)
    ensures
        r == pin_shape_spec(s@),
{
    if str_eq(s, "inverted") {
        PinShapeStyle::InvertedBubble
    } else if str_eq(s, "clock") {
        PinShapeStyle::ClockTriangle
    } else if str_eq(s, "inverted_clock") {
        PinShapeStyle::InvertedClockBubble
    } else if str_eq(s, "input_low") {
        PinShapeStyle::InvertedBubble
    } else if str_eq(s, "clock_low") {
        PinShapeStyle::InvertedClockBubble
    } else if str_eq(s, "output_low") {
        PinShapeStyle::InvertedBubble
    } else if str_eq(s, "edge_clock_high") {
        PinShapeStyle::ClockTriangle
    } else {
        PinShapeStyle::Plain
    }
}

// ---------------------------------------------------------------------------
// Node helpers
// ---------------------------------------------------------------------------

/// The first argument of child `name` of `node`.
pub open spec fn child_arg(node: SExpr, name: Seq<char>) -> Option<Seq<char>> {
    match find_spec(node, name) {
        Some(c) => arg_spec(c, 0),
        None => None,
    }
}

pub(crate) fn child_first_arg<'a>(node: &'a SExpr, name: &str) -> (r: Option<&'a str>)
    ensures
        crate::sexpr::opt_str_view(r) == child_arg(*node, name@),
{
    match node.find(name) {
        Some(c) => c.first_arg(),
        None => None,
    }
}

pub(crate) fn owned_or(o: Option<&str>, default: &str) -> (r: String)
    ensures
        r@ == match o {
            Some(t) => t@,
            None => default@,
        },
{
    match o {
        Some(t) => t.to_owned(),
        None => default.to_owned(),
    }
}

pub open spec fn fill_type_spec(node: SExpr) -> FillType {
    let token = match find_spec(node, "fill"@) {
        Some(f) => child_arg(f, "type"@),
        None => None,
    };
    let t = match token {
        Some(x) => x,
        None => "none"@,
    };
    fill_of_token(t)
}

/// The fill a `(type ..)` token names; anything unknown is no fill.
pub open spec fn fill_of_token(t: Seq<char>) -> FillType {
    if t == "outline"@ {
        FillType::Outline
    } else if t == "background"@ {
        FillType::Background
    } else {
        FillType::Unfilled
    }
}

/// The fill of a drawing: `(fill (type outline|background|...))`.
pub fn parse_fill_type(node: &SExpr) -> (r: FillType)
    ensures
        r == fill_type_spec(*node),
{
    let token = match node.find("fill") {
        Some(f) => child_first_arg(f, "type"),
        None => None,
    };
    let t = match token {
        Some(x) => x,
        None => "none",
    };
    if str_eq(t, "outline") {
        FillType::Outline
    } else if str_eq(t, "background") {
        FillType::Background
    } else {
        FillType::Unfilled
    }
}

pub open spec fn is_hide_atom(e: SExpr) -> bool {
    e matches SExpr::Atom(a) && a.text() == "hide"@
}

pub open spec fn effects_hidden_spec(effects: Option<SExpr>) -> bool {
    match effects {
        None => false,
        Some(eff) => match find_spec(eff, "hide"@) {
            Some(h) => match arg_spec(h, 0) {
                Some(v) => v == "yes"@,
                None => true,
            },
            None => exists|i: int|
                0 <= i < children_spec(eff).len() && is_hide_atom(#[trigger] children_spec(eff)[i]),
        },
    }
}

/// Whether an `(effects ...)` node hides its text: `(hide yes)`, a bare
/// `(hide)`, or a standalone `hide` atom.
pub fn is_effects_hidden(effects: Option<&SExpr>) -> (r: bool)
    ensures
        r == effects_hidden_spec(crate::sexpr::opt_ref_view(effects)),
{
    let eff = match effects {
        Some(e) => e,
        None => {
            return false;
        },
    };
    if let Some(h) = eff.find("hide") {
        return match h.first_arg() {
            Some(v) => str_eq(v, "yes"),
            None => true,
        };
    }
    let items = eff.children();
    let mut i: usize = 0;
    while i < items.len()
        invariant
            i <= items@.len(),
            items@ == children_spec(*eff),
            crate::sexpr::opt_ref_view(effects) == Some(*eff),
            find_spec(*eff, "hide"@) is None,
            forall|j: int| 0 <= j < i ==> !is_hide_atom(#[trigger] items@[j]),
        decreases items.len() - i,
    {
        if let SExpr::Atom(a) = &items[i] {
            if str_eq(a.as_str(), "hide") {
                assert(is_hide_atom(items@[i as int]));
                return true;
            }
        }
        i += 1;
    }
    false
}

/// Whether a text node's effects hide it.
pub fn is_text_hidden(node: &SExpr) -> (r: bool)
    ensures
        r == effects_hidden_spec(find_spec(*node, "effects"@)),
{
    is_effects_hidden(node.find("effects"))
}

// ---------------------------------------------------------------------------
// Variants
// ---------------------------------------------------------------------------

/// Names of the `variant` nodes from `k` on, trimmed, skipping empty names
/// and names already in `acc`.
pub open spec fn variants_from(vs: Seq<SExpr>, k: int, acc: Seq<Seq<char>>) -> Seq<Seq<char>>
    decreases vs.len() - k,
{
    if k < 0 || k >= vs.len() {
        acc
    } else {
        match arg_spec(vs[k], 0) {
            None => variants_from(vs, k + 1, acc),
            Some(n) => {
                let name = trim_spec(n);
                if name.len() == 0 || acc.contains(name) {
                    variants_from(vs, k + 1, acc)
                } else {
                    variants_from(vs, k + 1, acc.push(name))
                }
            },
        }
    }
}

pub open spec fn variant_definitions_spec(root: SExpr) -> Seq<Seq<char>> {
    match find_spec(root, "variant_definitions"@) {
        None => Seq::empty(),
        Some(defs) => variants_from(find_all_spec(defs, "variant"@), 0, Seq::empty()),
    }
}

/// No name twice and no empty name.
pub open spec fn distinct_names(v: Seq<Seq<char>>) -> bool {
    &&& forall|i: int, j: int| 0 <= i < j < v.len() ==> #[trigger] v[i] != #[trigger] v[j]
    &&& forall|i: int| 0 <= i < v.len() ==> (#[trigger] v[i]).len() > 0
}

proof fn lemma_variants_from_distinct(vs: Seq<SExpr>, k: int, acc: Seq<Seq<char>>)
    requires
        distinct_names(acc),
    ensures
        distinct_names(variants_from(vs, k, acc)),
    decreases vs.len() - k,
{
    if 0 <= k < vs.len() {
        match arg_spec(vs[k], 0) {
            None => lemma_variants_from_distinct(vs, k + 1, acc),
            Some(n) => {
                let name = trim_spec(n);
                if name.len() == 0 || acc.contains(name) {
                    lemma_variants_from_distinct(vs, k + 1, acc);
                } else {
                    let next = acc.push(name);
                    assert forall|i: int, j: int| 0 <= i < j < next.len() implies #[trigger] next[i] != #[trigger] next[j] by {
                        if j == acc.len() {
                            assert(next[i] == acc[i]);
                            if next[i] == name {
                                assert(acc.contains(name));
                            }
                        } else {
                            assert(next[i] == acc[i] && next[j] == acc[j]);
                        }
                    }
                    assert forall|i: int| 0 <= i < next.len() implies (#[trigger] next[i]).len() > 0 by {
                        if i < acc.len() {
                            assert(next[i] == acc[i]);
                        }
                    }
                    lemma_variants_from_distinct(vs, k + 1, next);
                }
            },
        }
    }
}

/// A schematic's variant names hold no name twice and no empty name.
pub proof fn lemma_variant_names_distinct(root: SExpr)
    ensures
        distinct_names(variant_definitions_spec(root)),
{
    if let Some(defs) = find_spec(root, "variant_definitions"@) {
        lemma_variants_from_distinct(find_all_spec(defs, "variant"@), 0, Seq::empty());
    }
}

pub open spec fn strings_view(v: Seq<String>) -> Seq<Seq<char>> {
    v.map_values(|s: String| s@)
}

/// The schematic's variant names, in order of first appearance.
pub fn parse_variant_definitions(root: &SExpr) -> (r: Vec<String>)
    ensures
        strings_view(r@) == variant_definitions_spec(*root),
{
    let mut variants: Vec<String> = Vec::new();
    assert(strings_view(variants@) =~= Seq::<Seq<char>>::empty());
    if let Some(defs) = root.find("variant_definitions") {
        let vs = defs.find_all("variant");
        let ghost vsv = crate::sexpr::refs_view(vs@);
        let mut k: usize = 0;
        while k < vs.len()
            invariant
                k <= vs@.len(),
                vsv == crate::sexpr::refs_view(vs@),
                vsv == find_all_spec(*defs, "variant"@),
                variants_from(vsv, k as int, strings_view(variants@)) == variants_from(
                    vsv,
                    0,
                    Seq::empty(),
                ),
            decreases vs.len() - k,
        {
            assert(vsv[k as int] == *vs@[k as int]);
            if let Some(n) = vs[k].first_arg() {
                let nc = chars_of(n);
                let name = trim_chars(nc.as_slice());
                if name.len() > 0 {
                    // Already present?
                    let mut seen = false;
                    let mut j: usize = 0;
                    while j < variants.len()
                        invariant
                            j <= variants@.len(),
                            seen == exists|q: int| 0 <= q < j && variants@[q]@ == name@,
                        decreases variants.len() - j,
                    {
                        let v = chars_of(variants[j].as_str());
                        if chars_eq(v.as_slice(), name.as_slice()) {
                            seen = true;
                        }
                        j += 1;
                    }
                    proof {
                        let acc = strings_view(variants@);
                        if seen {
                            let q = choose|q: int| 0 <= q < j && variants@[q]@ == name@;
                            assert(acc[q] == name@);
                            assert(acc.contains(name@));
                        } else {
                            assert(!acc.contains(name@)) by {
                                if acc.contains(name@) {
                                    let q = choose|q: int| 0 <= q < acc.len() && acc[q] == name@;
                                    assert(variants@[q]@ == name@);
                                }
                            }
                        }
                    }
                    if !seen {
                        let ghost before = variants@;
                        let s = crate::text::string_from_chars(name.as_slice());
                        let ghost sv = s;
                        variants.push(s);
                        assert(strings_view(variants@) =~= strings_view(before).push(sv@));
                    }
                }
            }
            k += 1;
        }
    }
    variants
}


// ---------------------------------------------------------------------------
// Title block
// ---------------------------------------------------------------------------

pub open spec fn opt_insert(
    m: Map<Seq<char>, Seq<char>>,
    key: Seq<char>,
    v: Option<Seq<char>>,
) -> Map<Seq<char>, Seq<char>> {
    match v {
        Some(x) => m.insert(key, x),
        None => m,
    }
}

/// The `(comment N "text")` entries from index `k` on, each stored as
/// `comment_N`; a later comment with the same number wins.
pub open spec fn comments_from(
    cs: Seq<SExpr>,
    k: int,
    m: Map<Seq<char>, Seq<char>>,
) -> Map<Seq<char>, Seq<char>>
    decreases cs.len() - k,
{
    if k < 0 || k >= cs.len() {
        m
    } else {
        let next = match (arg_spec(cs[k], 0), arg_spec(cs[k], 1)) {
            (Some(n), Some(t)) => m.insert("comment_"@ + n, t),
            _ => m,
        };
        comments_from(cs, k + 1, next)
    }
}

pub open spec fn title_block_spec(root: SExpr) -> Map<Seq<char>, Seq<char>> {
    match find_spec(root, "title_block"@) {
        None => Map::empty(),
        Some(tb) => {
            let m = opt_insert(Map::empty(), "title"@, child_arg(tb, "title"@));
            let m = opt_insert(m, "date"@, child_arg(tb, "date"@));
            let m = opt_insert(m, "rev"@, child_arg(tb, "rev"@));
            let m = opt_insert(m, "company"@, child_arg(tb, "company"@));
            comments_from(find_all_spec(tb, "comment"@), 0, m)
        },
    }
}

fn insert_child_arg(m: &mut VarMap, tb: &SExpr, name: &str)
    ensures
        final(m)@ == opt_insert(old(m)@, name@, child_arg(*tb, name@)),
{
    if let Some(v) = child_first_arg(tb, name) {
        m.insert(name.to_owned(), v.to_owned());
    }
}

/// The sheet's title block: title, date, revision, company and numbered
/// comments.
pub fn parse_title_block(root: &SExpr) -> (r: VarMap)
    ensures
        r@ == title_block_spec(*root),
{
    let mut m = VarMap::new();
    let tb = match root.find("title_block") {
        Some(tb) => tb,
        None => {
            return m;
        },
    };
    insert_child_arg(&mut m, tb, "title");
    insert_child_arg(&mut m, tb, "date");
    insert_child_arg(&mut m, tb, "rev");
    insert_child_arg(&mut m, tb, "company");
    let comments = tb.find_all("comment");
    let ghost cs = crate::sexpr::refs_view(comments@);
    let ghost base = m@;
    let mut k: usize = 0;
    while k < comments.len()
        invariant
            k <= comments@.len(),
            cs == crate::sexpr::refs_view(comments@),
            cs == find_all_spec(*tb, "comment"@),
            comments_from(cs, k as int, m@) == comments_from(cs, 0, base),
        decreases comments.len() - k,
    {
        assert(cs[k as int] == *comments@[k as int]);
        let c = comments[k];
        match (c.first_arg(), c.arg(1)) {
            (Some(num), Some(text)) => {
                let nc = chars_of(num);
                let key = concat_str("comment_", nc.as_slice());
                m.insert(key, text.to_owned());
            },
            _ => {},
        }
        k += 1;
    }
    m
}

// ---------------------------------------------------------------------------
// Instances
// ---------------------------------------------------------------------------

/// A decimal `u32` as `str::parse` reads it: an optional leading `+`,
/// then one or more digits, with no overflow.
pub open spec fn unsigned_digits(s: Seq<char>, i: int, acc: int) -> Option<int>
    decreases s.len() - i,
{
    if i < 0 || i >= s.len() {
        Some(acc)
    } else if !crate::snx::is_digit(s[i]) {
        None
    } else {
        let next = acc * 10 + crate::snx::digit_value(s[i]);
        if next > u32::MAX {
            None
        } else {
            unsigned_digits(s, i + 1, next)
        }
    }
}

pub open spec fn parse_u32_spec(s: Seq<char>) -> Option<int> {
    if s.len() == 0 {
        None
    } else if s[0] == '+' {
        if s.len() == 1 {
            None
        } else {
            unsigned_digits(s, 1, 0)
        }
    } else {
        unsigned_digits(s, 0, 0)
    }
}

proof fn lemma_unsigned_digits_bound(s: Seq<char>, i: int, acc: int)
    requires
        0 <= acc <= u32::MAX,
    ensures
        unsigned_digits(s, i, acc) matches Some(v) ==> 0 <= v <= u32::MAX,
    decreases s.len() - i,
{
    if 0 <= i < s.len() && crate::snx::is_digit(s[i]) {
        let next = acc * 10 + crate::snx::digit_value(s[i]);
        if next <= u32::MAX {
            lemma_unsigned_digits_bound(s, i + 1, next);
        }
    }
}

/// Reads a `u32` written in decimal; `None` where `str::parse` fails.
pub fn parse_u32(s: &str) -> (r: Option<u32>)
    ensures
        match parse_u32_spec(s@) {
            Some(v) => r == Some(v as u32),
            None => r is None,
        },
{
    let cs = chars_of(s);
    if cs.len() == 0 {
        return None;
    }
    let mut i: usize = if cs[0] == '+' {
        1
    } else {
        0
    };
    if i == 1 && cs.len() == 1 {
        return None;
    }
    let ghost start = i as int;
    let mut acc: u32 = 0;
    while i < cs.len()
        invariant
            start <= i <= cs@.len(),
            cs@ == s@,
            parse_u32_spec(s@) == unsigned_digits(cs@, i as int, acc as int),
        decreases cs.len() - i,
    {
        let c = cs[i];
        if !('0' <= c && c <= '9') {
            return None;
        }
        let d: u32 = (c as u32) - ('0' as u32);
        assert(d == crate::snx::digit_value(c));
        if acc > 429496729 || (acc == 429496729 && d > 5) {
            return None;
        }
        acc = acc * 10 + d;
        i += 1;
    }
    Some(acc)
}

/// What a schematic keeps of a symbol instance: project, path, reference
/// and unit.
pub open spec fn symbol_instance_view(i: SymbolInstance) -> (Seq<char>, Seq<char>, Seq<char>, u32) {
    (i.project@, i.path@, i.reference@, i.unit)
}

pub open spec fn arg_or(e: SExpr, i: int, default: Seq<char>) -> Seq<char> {
    match arg_spec(e, i) {
        Some(v) => v,
        None => default,
    }
}

pub open spec fn child_arg_or(e: SExpr, name: Seq<char>, default: Seq<char>) -> Seq<char> {
    match child_arg(e, name) {
        Some(v) => v,
        None => default,
    }
}

/// The unit of a `(path ...)` entry; 1 when missing or unreadable.
pub open spec fn instance_unit(path: SExpr) -> u32 {
    match child_arg(path, "unit"@) {
        Some(u) => match parse_u32_spec(u) {
            Some(n) => n as u32,
            None => 1,
        },
        None => 1,
    }
}

pub open spec fn symbol_instance_of(project: Seq<char>, path: SExpr) -> (
    Seq<char>,
    Seq<char>,
    Seq<char>,
    u32,
) {
    (project, arg_or(path, 0, ""@), child_arg_or(path, "reference"@, ""@), instance_unit(path))
}

pub open spec fn symbol_paths(project: SExpr, n: int) -> Seq<(Seq<char>, Seq<char>, Seq<char>, u32)> {
    find_all_spec(project, "path"@).take(n).map_values(
        |p: SExpr| symbol_instance_of(arg_or(project, 0, ""@), p),
    )
}

/// The instances of the first `n` projects, in file order.
pub open spec fn symbol_projects_upto(ps: Seq<SExpr>, n: int) -> Seq<(Seq<char>, Seq<char>, Seq<char>, u32)>
    decreases n,
{
    if n <= 0 || n > ps.len() {
        Seq::empty()
    } else {
        symbol_projects_upto(ps, n - 1) + symbol_paths(ps[n - 1], find_all_spec(ps[n - 1], "path"@).len() as int)
    }
}

pub open spec fn symbol_instances_spec(symbol: SExpr) -> Seq<(Seq<char>, Seq<char>, Seq<char>, u32)> {
    match find_spec(symbol, "instances"@) {
        None => Seq::empty(),
        Some(inst) => {
            let ps = find_all_spec(inst, "project"@);
            symbol_projects_upto(ps, ps.len() as int)
        },
    }
}

pub open spec fn symbol_instances_view(v: Seq<SymbolInstance>) -> Seq<(Seq<char>, Seq<char>, Seq<char>, u32)> {
    v.map_values(|i: SymbolInstance| symbol_instance_view(i))
}

fn str_or<'a>(o: Option<&'a str>, default: &'a str) -> (r: &'a str)
    ensures
        r@ == match o {
            Some(t) => t@,
            None => default@,
        },
{
    match o {
        Some(t) => t,
        None => default,
    }
}

/// The `(instances (project P (path ...)...)...)` of a placed symbol, in
/// file order.
pub fn parse_symbol_instances(symbol: &SExpr) -> (r: Vec<SymbolInstance>)
    ensures
        symbol_instances_view(r@) == symbol_instances_spec(*symbol),
{
    let mut out: Vec<SymbolInstance> = Vec::new();
    let inst = match symbol.find("instances") {
        Some(i) => i,
        None => {
            assert(symbol_instances_view(out@) =~= Seq::empty());
            return out;
        },
    };
    let projects = inst.find_all("project");
    let ghost ps = crate::sexpr::refs_view(projects@);
    let mut k: usize = 0;
    assert(symbol_instances_view(out@) =~= symbol_projects_upto(ps, 0));
    while k < projects.len()
        invariant
            k <= projects@.len(),
            ps == crate::sexpr::refs_view(projects@),
            ps == find_all_spec(*inst, "project"@),
            symbol_instances_view(out@) == symbol_projects_upto(ps, k as int),
        decreases projects.len() - k,
    {
        let pn = projects[k];
        assert(ps[k as int] == *pn);
        let project = str_or(pn.first_arg(), "");
        let paths = pn.find_all("path");
        let ghost prefix = symbol_projects_upto(ps, k as int);
        let mut j: usize = 0;
        assert(symbol_paths(*pn, 0) =~= Seq::empty());
        assert(symbol_instances_view(out@) =~= prefix + symbol_paths(*pn, 0));
        while j < paths.len()
            invariant
                j <= paths@.len(),
                crate::sexpr::refs_view(paths@) == find_all_spec(*pn, "path"@),
                project@ == arg_or(*pn, 0, ""@),
                symbol_instances_view(out@) == prefix + symbol_paths(*pn, j as int),
            decreases paths.len() - j,
        {
            let path = paths[j];
            assert(find_all_spec(*pn, "path"@)[j as int] == *path);
            let unit = match child_first_arg(path, "unit") {
                Some(u) => match parse_u32(u) {
                    Some(n) => n,
                    None => 1,
                },
                None => 1,
            };
            let item = SymbolInstance {
                project: project.to_owned(),
                path: str_or(path.first_arg(), "").to_owned(),
                reference: str_or(child_first_arg(path, "reference"), "").to_owned(),
                unit,
            };
            let ghost before = out@;
            out.push(item);
            assert(symbol_paths(*pn, j + 1) =~= symbol_paths(*pn, j as int).push(
                symbol_instance_of(project@, *path),
            ));
            assert(symbol_instances_view(out@) =~= symbol_instances_view(before).push(
                symbol_instance_view(out@[out@.len() - 1]),
            ));
            j += 1;
        }
        assert(symbol_paths(*pn, j as int) == symbol_paths(
            ps[k as int],
            find_all_spec(ps[k as int], "path"@).len() as int,
        ));
        k += 1;
    }
    out
}

pub open spec fn sheet_instance_view(i: SheetInstance) -> (Seq<char>, Seq<char>, Seq<char>) {
    (i.project@, i.path@, i.page@)
}

pub open spec fn sheet_instance_of(project: Seq<char>, path: SExpr) -> (Seq<char>, Seq<char>, Seq<char>) {
    (project, arg_or(path, 0, ""@), child_arg_or(path, "page"@, "1"@))
}

pub open spec fn sheet_paths(project: SExpr, n: int) -> Seq<(Seq<char>, Seq<char>, Seq<char>)> {
    find_all_spec(project, "path"@).take(n).map_values(
        |p: SExpr| sheet_instance_of(arg_or(project, 0, ""@), p),
    )
}

pub open spec fn sheet_projects_upto(ps: Seq<SExpr>, n: int) -> Seq<(Seq<char>, Seq<char>, Seq<char>)>
    decreases n,
{
    if n <= 0 || n > ps.len() {
        Seq::empty()
    } else {
        sheet_projects_upto(ps, n - 1) + sheet_paths(ps[n - 1], find_all_spec(ps[n - 1], "path"@).len() as int)
    }
}

pub open spec fn sheet_instances_spec(sheet: SExpr) -> Seq<(Seq<char>, Seq<char>, Seq<char>)> {
    match find_spec(sheet, "instances"@) {
        None => Seq::empty(),
        Some(inst) => {
            let ps = find_all_spec(inst, "project"@);
            sheet_projects_upto(ps, ps.len() as int)
        },
    }
}

pub open spec fn sheet_instances_view(v: Seq<SheetInstance>) -> Seq<(Seq<char>, Seq<char>, Seq<char>)> {
    v.map_values(|i: SheetInstance| sheet_instance_view(i))
}

/// The `(instances (project P (path "/.." (page "N"))...)...)` of a child
/// sheet, in file order; a missing page reads as `"1"`.
pub fn parse_sheet_instances(sheet: &SExpr) -> (r: Vec<SheetInstance>)
    ensures
        sheet_instances_view(r@) == sheet_instances_spec(*sheet),
{
    let mut out: Vec<SheetInstance> = Vec::new();
    let inst = match sheet.find("instances") {
        Some(i) => i,
        None => {
            assert(sheet_instances_view(out@) =~= Seq::empty());
            return out;
        },
    };
    let projects = inst.find_all("project");
    let ghost ps = crate::sexpr::refs_view(projects@);
    let mut k: usize = 0;
    assert(sheet_instances_view(out@) =~= sheet_projects_upto(ps, 0));
    while k < projects.len()
        invariant
            k <= projects@.len(),
            ps == crate::sexpr::refs_view(projects@),
            ps == find_all_spec(*inst, "project"@),
            sheet_instances_view(out@) == sheet_projects_upto(ps, k as int),
        decreases projects.len() - k,
    {
        let pn = projects[k];
        assert(ps[k as int] == *pn);
        let project = str_or(pn.first_arg(), "");
        let paths = pn.find_all("path");
        let ghost prefix = sheet_projects_upto(ps, k as int);
        let mut j: usize = 0;
        assert(sheet_paths(*pn, 0) =~= Seq::empty());
        assert(sheet_instances_view(out@) =~= prefix + sheet_paths(*pn, 0));
        while j < paths.len()
            invariant
                j <= paths@.len(),
                crate::sexpr::refs_view(paths@) == find_all_spec(*pn, "path"@),
                project@ == arg_or(*pn, 0, ""@),
                sheet_instances_view(out@) == prefix + sheet_paths(*pn, j as int),
            decreases paths.len() - j,
        {
            let path = paths[j];
            assert(find_all_spec(*pn, "path"@)[j as int] == *path);
            let item = SheetInstance {
                project: project.to_owned(),
                path: str_or(path.first_arg(), "").to_owned(),
                page: str_or(child_first_arg(path, "page"), "1").to_owned(),
            };
            let ghost before = out@;
            out.push(item);
            assert(sheet_paths(*pn, j + 1) =~= sheet_paths(*pn, j as int).push(
                sheet_instance_of(project@, *path),
            ));
            assert(sheet_instances_view(out@) =~= sheet_instances_view(before).push(
                sheet_instance_view(out@[out@.len() - 1]),
            ));
            j += 1;
        }
        assert(sheet_paths(*pn, j as int) == sheet_paths(
            ps[k as int],
            find_all_spec(ps[k as int], "path"@).len() as int,
        ));
        k += 1;
    }
    out
}

// ---------------------------------------------------------------------------
// Root sheet page
// ---------------------------------------------------------------------------

/// The first entry at or after `k` whose first argument is `/` and, when
/// `need_keyword` holds, whose keyword is `path`.
pub open spec fn first_root_path(ps: Seq<SExpr>, k: int, need_keyword: bool) -> Option<SExpr>
    decreases ps.len() - k,
{
    if k < 0 || k >= ps.len() {
        None
    } else if arg_spec(ps[k], 0) == Some("/"@) && (!need_keyword || keyword_spec(ps[k]) == Some(
        "path"@,
    )) {
        Some(ps[k])
    } else {
        first_root_path(ps, k + 1, need_keyword)
    }
}

/// The page number of the root sheet: from `(sheet_instances (path "/"
/// (page ..)))`, else from a top-level `(path "/" (page ..))`, else `"1"`.
pub open spec fn root_listed_page(root: SExpr) -> Option<SExpr> {
    match find_spec(root, "sheet_instances"@) {
        Some(si) => first_root_path(find_all_spec(si, "path"@), 0, false),
        None => None,
    }
}

pub open spec fn root_sheet_page_spec(root: SExpr) -> Seq<char> {
    match root_listed_page(root) {
        Some(p) => child_arg_or(p, "page"@, "1"@),
        None => match first_root_path(children_spec(root), 0, true) {
            Some(p) => child_arg_or(p, "page"@, "1"@),
            None => "1"@,
        },
    }
}

proof fn lemma_first_root_path_skip(ps: Seq<SExpr>, k: int, need_keyword: bool)
    requires
        0 <= k < ps.len(),
        !(arg_spec(ps[k], 0) == Some("/"@) && (!need_keyword || keyword_spec(ps[k]) == Some(
            "path"@,
        ))),
    ensures
        first_root_path(ps, k, need_keyword) == first_root_path(ps, k + 1, need_keyword),
{
}

fn is_root_path(p: &SExpr, need_keyword: bool) -> (r: bool)
    ensures
        r == (arg_spec(*p, 0) == Some("/"@) && (!need_keyword || keyword_spec(*p) == Some(
            "path"@,
        ))),
{
    let slash = match p.first_arg() {
        Some(a) => str_eq(a, "/"),
        None => false,
    };
    if !slash {
        return false;
    }
    if !need_keyword {
        return true;
    }
    match p.keyword() {
        Some(kw) => str_eq(kw, "path"),
        None => false,
    }
}

/// The page of the root sheet, as the schematic records it.
pub fn parse_root_sheet_page(root: &SExpr) -> (r: String)
    ensures
        r@ == root_sheet_page_spec(*root),
{
    if let Some(si) = root.find("sheet_instances") {
        let paths = si.find_all("path");
        let ghost ps = crate::sexpr::refs_view(paths@);
        let mut k: usize = 0;
        while k < paths.len()
            invariant
                k <= paths@.len(),
                ps == crate::sexpr::refs_view(paths@),
                ps == find_all_spec(*si, "path"@),
                find_spec(*root, "sheet_instances"@) == Some(*si),
                first_root_path(ps, k as int, false) == first_root_path(ps, 0, false),
            decreases paths.len() - k,
        {
            assert(ps[k as int] == *paths@[k as int]);
            if is_root_path(paths[k], false) {
                return str_or(child_first_arg(paths[k], "page"), "1").to_owned();
            }
            proof {
                lemma_first_root_path_skip(ps, k as int, false);
            }
            k += 1;
        }
    }
    assert(root_listed_page(*root) is None);
    let items = root.children();
    let mut k: usize = 0;
    while k < items.len()
        invariant
            k <= items@.len(),
            items@ == children_spec(*root),
            root_listed_page(*root) is None,
            first_root_path(items@, k as int, true) == first_root_path(items@, 0, true),
        decreases items.len() - k,
    {
        if is_root_path(&items[k], true) {
            return str_or(child_first_arg(&items[k], "page"), "1").to_owned();
        }
        proof {
            lemma_first_root_path_skip(items@, k as int, true);
        }
        k += 1;
    }
    "1".to_owned()
}

} // verus!
