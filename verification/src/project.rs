//! Project files: what a `.snxprj` names and which of its companion files
//! exist next to it.

use vstd::prelude::*;

use crate::text::{chars_of, string_from_chars};

verus! {

broadcast use vstd::std_specs::vec::group_vec_axioms;

#[derive(Debug, Clone, Copy, PartialEq, Eq, Hash, Structural)]
pub enum DocumentType {
    Schematic,
    Pcb,
    Library,
    OutputJob,
}

/// An open document: its id (a UUID's 128 bits), name, type, path, and
/// whether it has unsaved changes.
#[derive(Debug, Clone, PartialEq, Eq)]
pub struct Document {
    pub id: u128,
    pub name: String,
    pub doc_type: DocumentType,
    pub path: String,
    pub dirty: bool,
}

/// A row of the project tree.
#[derive(Debug, Clone, PartialEq, Eq)]
pub struct SheetEntry {
    pub name: String,
    pub filename: String,
    pub symbols_count: usize,
    pub wires_count: usize,
    pub labels_count: usize,
}

/// What a project file tells about the project.
#[derive(Debug, Clone, PartialEq, Eq)]
pub struct ProjectData {
    pub name: String,
    pub dir: String,
    pub schematic_root: Option<String>,
    pub pcb_file: Option<String>,
    pub sheets: Vec<SheetEntry>,
    /// Schematic-level variant definitions.
    pub variant_definitions: Vec<String>,
    /// The selected variant, if the project says.
    pub active_variant: Option<String>,
}

/// Why a project file could not be opened.
#[derive(Debug, Clone, PartialEq, Eq)]
pub enum ProjectError {
    NotFound(String),
    Io { path: String, message: String },
    UnsupportedExtension(String),
}

pub open spec fn ascii_lower_char(c: char) -> char {
    if 'A' <= c && c <= 'Z' {
        ((c as u32) + 32) as char
    } else {
        c
    }
}

/// `s` with ASCII capitals made small, as `to_ascii_lowercase` does.
pub open spec fn ascii_lower(s: Seq<char>) -> Seq<char> {
    s.map_values(|c: char| ascii_lower_char(c))
}

pub fn to_ascii_lowercase(s: &str) -> (r: String)
    ensures
        r@ == ascii_lower(s@),
{
    let cs = chars_of(s);
    let mut out: Vec<char> = Vec::new();
    let mut i: usize = 0;
    while i < cs.len()
        invariant
            i <= cs@.len(),
            out@ == ascii_lower(cs@.take(i as int)),
        decreases cs.len() - i,
    {
        let c = cs[i];
        let l = if 'A' <= c && c <= 'Z' {
            let b = (c as u8) + 32;
            b as char
        } else {
            c
        };
        assert(l == ascii_lower_char(c));
        out.push(l);
        assert(ascii_lower(cs@.take(i + 1)) =~= ascii_lower(cs@.take(i as int)).push(ascii_lower_char(c)));
        i += 1;
    }
    assert(cs@.take(i as int) =~= cs@);
    string_from_chars(out.as_slice())
}

pub open spec fn project_name_spec(stem: Option<Seq<char>>) -> Seq<char> {
    match stem {
        Some(s) => s,
        None => "Untitled"@,
    }
}

/// The project's name: the project file's stem, or `Untitled`.
pub fn project_name(stem: Option<&str>) -> (r: String)
    ensures
        r@ == project_name_spec(crate::sexpr::opt_str_view(stem)),
{
    match stem {
        Some(s) => s.to_owned(),
        None => "Untitled".to_owned(),
    }
}

fn with_suffix(name: &str, suffix: &str) -> (r: String)
    ensures
        r@ == name@ + suffix@,
{
    let mut v = chars_of(name);
    let sc = chars_of(suffix);
    crate::text::append_chars(&mut v, sc.as_slice());
    string_from_chars(v.as_slice())
}

/// `<name>.snxsch`, the root schematic a project looks for.
pub fn schematic_file_name(name: &str) -> (r: String)
    ensures
        r@ == name@ + ".snxsch"@,
{
    with_suffix(name, ".snxsch")
}

/// `<name>.snxpcb`, the board a project looks for.
pub fn pcb_file_name(name: &str) -> (r: String)
    ensures
        r@ == name@ + ".snxpcb"@,
{
    with_suffix(name, ".snxpcb")
}

pub open spec fn opt_string_view(o: Option<String>) -> Option<Seq<char>> {
    match o {
        Some(s) => Some(s@),
        None => None,
    }
}

/// The project a `.snxprj` file describes, given the parts of its path
/// (extension, parent directory, stem; each `None` where the path has
/// none or it is not text) and whether `<name>.snxsch` and
/// `<name>.snxpcb` exist in that directory. Any other extension,
/// compared without regard to ASCII case, is refused.
pub fn parse_project(
    extension: Option<&str>,
    parent: Option<&str>,
    stem: Option<&str>,
    schematic_exists: bool,
    pcb_exists: bool,
) -> (r: Result<ProjectData, ProjectError>)
    ensures
        ({
            let ext = ascii_lower(match extension {
                Some(e) => e@,
                None => ""@,
            });
            let name = project_name_spec(crate::sexpr::opt_str_view(stem));
            if ext != "snxprj"@ {
                r matches Err(ProjectError::UnsupportedExtension(e)) && e@ == ext
            } else {
                r matches Ok(p) && p.name@ == name && p.dir@ == match parent {
                    Some(d) => d@,
                    None => "."@,
                } && opt_string_view(p.schematic_root) == (if schematic_exists {
                    Some(name + ".snxsch"@)
                } else {
                    None
                }) && opt_string_view(p.pcb_file) == (if pcb_exists {
                    Some(name + ".snxpcb"@)
                } else {
                    None
                }) && p.sheets@.len() == (if schematic_exists { 1int } else { 0 }) && (schematic_exists
                    ==> p.sheets@[0].name@ == name && p.sheets@[0].filename@ == name + ".snxsch"@
                    && p.sheets@[0].symbols_count == 0 && p.sheets@[0].wires_count == 0
                    && p.sheets@[0].labels_count == 0) && p.variant_definitions@.len() == 0
                    && p.active_variant is None
            }
        }),
{
    let ext = match extension {
        Some(e) => to_ascii_lowercase(e),
        None => to_ascii_lowercase(""),
    };
    if !crate::text::str_eq(ext.as_str(), "snxprj") {
        return Err(ProjectError::UnsupportedExtension(ext));
    }
    let dir = match parent {
        Some(d) => d.to_owned(),
        None => ".".to_owned(),
    };
    let name = project_name(stem);
    let sch = schematic_file_name(name.as_str());
    let schematic_root = if schematic_exists {
        Some(sch)
    } else {
        None
    };
    let pcb_file = if pcb_exists {
        Some(pcb_file_name(name.as_str()))
    } else {
        None
    };
    let mut sheets: Vec<SheetEntry> = Vec::new();
    if schematic_exists {
        sheets.push(
            SheetEntry {
                name: project_name(stem),
                filename: schematic_file_name(name.as_str()),
                symbols_count: 0,
                wires_count: 0,
                labels_count: 0,
            },
        );
    }
    Ok(
        ProjectData {
            name,
            dir,
            schematic_root,
            pcb_file,
            sheets,
            variant_definitions: Vec::new(),
            active_variant: None,
        },
    )
}

} // verus!
