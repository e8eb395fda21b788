//! Signex/KiCad interchange library: markup, TSV bulk blocks, S-expression
//! trees and the small enumerations and palettes shared by both sides.

pub mod text;
pub mod markup;
pub mod varmap;
pub mod layer;
pub mod coord;
pub mod net;
pub mod violation;
pub mod schematic;
pub mod pcb;
pub mod snx;
pub mod sexpr;
pub mod sexpr_read;
pub mod kicad_text;
pub mod kicad_read;
pub mod kicad_write;
pub mod theme;
pub mod project;
pub mod kicad_pcb;
pub mod snx_pcb;
pub mod error;
pub mod fresh_id;
pub mod sheet_walk;
pub mod sheet_dir;
pub mod pcb_sections;
pub mod tsv_laws;
pub mod kicad_lib;
pub mod order;
pub mod kicad_sch;
pub mod numeral;
pub mod kicad_parse;
pub mod kicad_lib_read;
pub mod kicad_sch_read;
pub mod kicad_symlib;
pub mod bounds;
pub mod snx_rows;
pub mod snx_symbols;
pub mod cell_laws;
