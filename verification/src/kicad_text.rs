//! KiCad files read from their text: the S-expression is read first, then
//! the schematic or symbol library it holds.

use vstd::prelude::*;

use crate::error::ParseError;
use crate::fresh_id::FreshUuids;
use crate::kicad_sch_read::{parse_schematic, sheet_ids, sheet_read};
use crate::kicad_symlib::{parse_symbol_lib, symbol_lib_read};
use crate::schematic::{LibSymbol, SchematicSheet};
use crate::sexpr::{keyword_spec, lemma_trees_from, tree_of, trees_from, SExpr, Tree};
use crate::sexpr_read::{parse, read_spec};

verus! {

/// The text of a shape's leading atom, when it is a list that starts with
/// one.
pub open spec fn tree_keyword(t: Tree) -> Option<Seq<char>> {
    match t {
        Tree::List(kids) => if kids.len() > 0 {
            match kids[0] {
                Tree::Raw(k) => Some(k),
                Tree::Quoted(k) => Some(k),
                Tree::List(_) => None,
            }
        } else {
            None
        },
        _ => None,
    }
}

/// An expression's keyword is its shape's.
pub proof fn lemma_keyword_of_tree(e: SExpr)
    ensures
        keyword_spec(e) == tree_keyword(tree_of(e)),
{
    if let SExpr::List(items) = e {
        lemma_trees_from(items@, 0);
        if items@.len() > 0 {
            assert(trees_from(items@, 0)[0] == tree_of(items@[0]));
        }
    }
}

/// Reads a schematic from the text of a `.kicad_sch` file: malformed
/// text is refused as such, a file whose root is not `kicad_sch` as not a
/// schematic.
pub fn parse_schematic_text(text: &str, ids: &mut FreshUuids) -> (r: Result<SchematicSheet, ParseError>)
    ensures
        match read_spec(text@) {
            None => (r matches Err(e) && e matches ParseError::InvalidSExpr(m) && m@ == "malformed S-expression"@)
                && *final(ids) == *old(ids),
            Some(t) => match r {
                Ok(sh) => tree_keyword(t) == Some("kicad_sch"@) && exists|e: SExpr|
                    tree_of(e) == t && #[trigger] sheet_read(sh, e, *old(ids)) && *final(ids) == sheet_ids(
                        e,
                        *old(ids),
                    ),
                Err(err) => tree_keyword(t) != Some("kicad_sch"@) && (err matches ParseError::InvalidSExpr(m) && m@
                    == "Not a KiCad schematic file"@) && *final(ids) == *old(ids),
            },
        },
{
    match parse(text) {
        Ok(e) => {
            proof {
                lemma_keyword_of_tree(e);
            }
            let r = parse_schematic(&e, ids);
            r
        },
        Err(err) => Err(err),
    }
}

/// Reads a symbol library from the text of a `.kicad_sym` file.
pub fn parse_symbol_lib_text(text: &str) -> (r: Result<Vec<(String, LibSymbol)>, ParseError>)
    ensures
        match read_spec(text@) {
            None => r matches Err(e) && e matches ParseError::InvalidSExpr(m) && m@ == "malformed S-expression"@,
            Some(t) => match r {
                Ok(v) => tree_keyword(t) == Some("kicad_symbol_lib"@) && exists|e: SExpr|
                    tree_of(e) == t && #[trigger] symbol_lib_read(v@, e),
                Err(err) => tree_keyword(t) != Some("kicad_symbol_lib"@) && (err matches ParseError::InvalidSExpr(m)
                    && m@ == "Not a KiCad symbol library file"@),
            },
        },
{
    match parse(text) {
        Ok(e) => {
            proof {
                lemma_keyword_of_tree(e);
            }
            let r = parse_symbol_lib(&e);
            r
        },
        Err(err) => Err(err),
    }
}

} // verus!
