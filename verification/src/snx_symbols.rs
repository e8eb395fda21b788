//! What a placed symbol keeps beyond its row of the components table, and
//! rebuilding the symbol from the row and those extras.

use vstd::prelude::*;

use crate::coord::Vec2;
use crate::kicad_read::symbol_instance_view;
use crate::schematic::{SchematicProperty, Symbol, SymbolInstance, TextProp};
use crate::snx_rows::SchComponentRow;
use crate::varmap::VarMap;

verus! {

broadcast use vstd::std_specs::vec::group_vec_axioms;

/// The fields of a placed symbol that its components row does not carry.
#[derive(Debug)]
pub struct SymbolExtras {
    pub footprint: String,
    pub datasheet: String,
    pub mirror_x: bool,
    pub mirror_y: bool,
    pub unit: u32,
    pub is_power: bool,
    pub fields_autoplaced: bool,
    pub fields_user_placed: bool,
    pub dnp: bool,
    pub in_bom: bool,
    pub on_board: bool,
    pub exclude_from_sim: bool,
    pub locked: bool,
    pub fields: VarMap,
    pub custom_properties: Vec<SchematicProperty>,
    pub pin_uuids: Vec<(String, u128)>,
    pub instances: Vec<SymbolInstance>,
    pub ref_text: Option<TextProp>,
    pub val_text: Option<TextProp>,
}

/// Two custom properties agree field by field.
pub open spec fn same_property(a: SchematicProperty, b: SchematicProperty) -> bool {
    &&& a.key@ == b.key@
    &&& a.value@ == b.value@
    &&& a.id == b.id
    &&& a.text == b.text
    &&& a.show_name == b.show_name
    &&& a.do_not_autoplace == b.do_not_autoplace
    &&& a.variant_overrides@ == b.variant_overrides@
}

pub open spec fn pin_uuids_view(v: Seq<(String, u128)>) -> Seq<(Seq<char>, u128)> {
    v.map_values(|e: (String, u128)| (e.0@, e.1))
}

pub open spec fn instances_view(v: Seq<SymbolInstance>) -> Seq<(Seq<char>, Seq<char>, Seq<char>, u32)> {
    v.map_values(|i: SymbolInstance| symbol_instance_view(i))
}

fn copy_property(p: &SchematicProperty) -> (r: SchematicProperty)
    ensures
        same_property(r, *p),
{
    SchematicProperty {
        key: p.key.clone(),
        value: p.value.clone(),
        id: p.id,
        text: p.text,
        show_name: p.show_name,
        do_not_autoplace: p.do_not_autoplace,
        variant_overrides: p.variant_overrides.copy(),
    }
}

fn copy_properties(v: &Vec<SchematicProperty>) -> (r: Vec<SchematicProperty>)
    ensures
        r@.len() == v@.len(),
        forall|i: int| 0 <= i < v@.len() ==> same_property(#[trigger] r@[i], v@[i]),
{
    let mut r: Vec<SchematicProperty> = Vec::new();
    let mut i: usize = 0;
    while i < v.len()
        invariant
            i <= v@.len(),
            r@.len() == i,
            forall|k: int| 0 <= k < i ==> same_property(#[trigger] r@[k], v@[k]),
        decreases v.len() - i,
    {
        r.push(copy_property(&v[i]));
        i += 1;
    }
    r
}

fn copy_pin_uuids(v: &Vec<(String, u128)>) -> (r: Vec<(String, u128)>)
    ensures
        pin_uuids_view(r@) == pin_uuids_view(v@),
{
    let mut r: Vec<(String, u128)> = Vec::new();
    let mut i: usize = 0;
    while i < v.len()
        invariant
            i <= v@.len(),
            r@.len() == i,
            forall|k: int| 0 <= k < i ==> (#[trigger] r@[k]).0@ == v@[k].0@ && r@[k].1 == v@[k].1,
        decreases v.len() - i,
    {
        r.push((v[i].0.clone(), v[i].1));
        i += 1;
    }
    assert(pin_uuids_view(r@) =~= pin_uuids_view(v@));
    r
}

fn copy_instances(v: &Vec<SymbolInstance>) -> (r: Vec<SymbolInstance>)
    ensures
        instances_view(r@) == instances_view(v@),
{
    let mut r: Vec<SymbolInstance> = Vec::new();
    let mut i: usize = 0;
    while i < v.len()
        invariant
            i <= v@.len(),
            r@.len() == i,
            forall|k: int| 0 <= k < i ==> symbol_instance_view(#[trigger] r@[k]) == symbol_instance_view(v@[k]),
        decreases v.len() - i,
    {
        r.push(
            SymbolInstance {
                project: v[i].project.clone(),
                path: v[i].path.clone(),
                reference: v[i].reference.clone(),
                unit: v[i].unit,
            },
        );
        i += 1;
    }
    assert(instances_view(r@) =~= instances_view(v@));
    r
}

impl SymbolExtras {
    /// What `s` keeps beyond its row.
    pub fn from_symbol(s: &Symbol) -> (e: SymbolExtras)
        ensures
            e.footprint@ == s.footprint@ && e.datasheet@ == s.datasheet@,
            e.mirror_x == s.mirror_x && e.mirror_y == s.mirror_y && e.unit == s.unit && e.is_power == s.is_power,
            e.fields_autoplaced == s.fields_autoplaced && e.fields_user_placed == s.fields_user_placed,
            e.dnp == s.dnp && e.in_bom == s.in_bom,
            e.on_board == s.on_board && e.exclude_from_sim == s.exclude_from_sim && e.locked == s.locked,
            e.fields@ == s.fields@,
            e.custom_properties@.len() == s.custom_properties@.len(),
            forall|i: int|
                0 <= i < s.custom_properties@.len() ==> same_property(
                    #[trigger] e.custom_properties@[i],
                    s.custom_properties@[i],
                ),
            pin_uuids_view(e.pin_uuids@) == pin_uuids_view(s.pin_uuids@),
            instances_view(e.instances@) == instances_view(s.instances@),
            e.ref_text == s.ref_text && e.val_text == s.val_text,
    {
        SymbolExtras {
            footprint: s.footprint.clone(),
            datasheet: s.datasheet.clone(),
            mirror_x: s.mirror_x,
            mirror_y: s.mirror_y,
            unit: s.unit,
            is_power: s.is_power,
            fields_autoplaced: s.fields_autoplaced,
            fields_user_placed: s.fields_user_placed,
            dnp: s.dnp,
            in_bom: s.in_bom,
            on_board: s.on_board,
            exclude_from_sim: s.exclude_from_sim,
            locked: s.locked,
            fields: s.fields.copy(),
            custom_properties: copy_properties(&s.custom_properties),
            pin_uuids: copy_pin_uuids(&s.pin_uuids),
            instances: copy_instances(&s.instances),
            ref_text: s.ref_text,
            val_text: s.val_text,
        }
    }

    pub open spec fn is_default_spec(&self) -> bool {
        &&& self.footprint@.len() == 0
        &&& self.datasheet@.len() == 0
        &&& !self.mirror_x
        &&& !self.mirror_y
        &&& self.unit == 1
        &&& !self.is_power
        &&& !self.fields_autoplaced
        &&& !self.fields_user_placed
        &&& !self.dnp
        &&& self.in_bom
        &&& self.on_board
        &&& !self.exclude_from_sim
        &&& !self.locked
        &&& self.fields@ == Map::<Seq<char>, Seq<char>>::empty()
        &&& self.custom_properties@.len() == 0
        &&& self.pin_uuids@.len() == 0
        &&& self.instances@.len() == 0
        &&& self.ref_text is None
        &&& self.val_text is None
    }

    /// Nothing to keep: every field as a fresh symbol has it.
    pub fn is_default(&self) -> (b: bool)
        ensures
            b == self.is_default_spec(),
    {
        let fields_empty = self.fields.entries().len() == 0;
        proof {
            let ev = self.fields.entries_view();
            if fields_empty {
                assert(self.fields@ =~= Map::<Seq<char>, Seq<char>>::empty()) by {
                    assert forall|k: Seq<char>| !self.fields@.dom().contains(k) by {
                        if self.fields@.dom().contains(k) {
                            let i = choose|i: int| 0 <= i < ev.len() && #[trigger] ev[i].0 == k;
                        }
                    }
                }
            } else {
                assert(self.fields@.dom().contains(ev[0].0));
                assert(!Map::<Seq<char>, Seq<char>>::empty().dom().contains(ev[0].0));
            }
        }
        self.footprint.as_str().is_empty() && self.datasheet.as_str().is_empty() && !self.mirror_x && !self.mirror_y
            && self.unit == 1 && !self.is_power && !self.fields_autoplaced && !self.fields_user_placed && !self.dnp && self.in_bom
            && self.on_board && !self.exclude_from_sim && !self.locked && fields_empty
            && self.custom_properties.len() == 0 && self.pin_uuids.len() == 0 && self.instances.len() == 0
            && self.ref_text.is_none() && self.val_text.is_none()
    }
}

/// The fields of a symbol read back: the extras' fields, with the row's
/// `MPN` added where the row names one and the extras have none.
pub open spec fn fields_with_mpn(fields: Map<Seq<char>, Seq<char>>, mpn: Seq<char>) -> Map<Seq<char>, Seq<char>> {
    if mpn.len() != 0 && !fields.dom().contains("MPN"@) {
        fields.insert("MPN"@, mpn)
    } else {
        fields
    }
}

/// The symbol a components row and its extras stand for.
pub fn row_to_symbol(row: SchComponentRow, extras: SymbolExtras) -> (s: Symbol)
    ensures
        s.uuid == row.uuid && s.lib_id == row.library && s.reference == row.ref_des && s.value == row.value,
        s.position == (Vec2 { x: row.pos_x, y: row.pos_y }) && s.rotation == row.rotation,
        s.footprint == extras.footprint && s.datasheet == extras.datasheet,
        s.mirror_x == extras.mirror_x && s.mirror_y == extras.mirror_y && s.unit == extras.unit,
        s.is_power == extras.is_power && s.ref_text == extras.ref_text && s.val_text == extras.val_text,
        s.fields_autoplaced == extras.fields_autoplaced && s.fields_user_placed == extras.fields_user_placed,
        s.dnp == extras.dnp && s.in_bom == extras.in_bom && s.on_board == extras.on_board,
        s.exclude_from_sim == extras.exclude_from_sim && s.locked == extras.locked,
        s.fields@ == fields_with_mpn(extras.fields@, row.mpn@),
        s.custom_properties == extras.custom_properties && s.pin_uuids == extras.pin_uuids,
        s.instances == extras.instances,
{
    proof {
        reveal_strlit("MPN");
    }
    let mut fields = extras.fields;
    if !row.mpn.as_str().is_empty() && fields.get("MPN").is_none() {
        fields.insert("MPN".to_owned(), row.mpn.clone());
    }
    Symbol {
        uuid: row.uuid,
        lib_id: row.library,
        reference: row.ref_des,
        value: row.value,
        footprint: extras.footprint,
        datasheet: extras.datasheet,
        position: Vec2 { x: row.pos_x, y: row.pos_y },
        rotation: row.rotation,
        mirror_x: extras.mirror_x,
        mirror_y: extras.mirror_y,
        unit: extras.unit,
        is_power: extras.is_power,
        ref_text: extras.ref_text,
        val_text: extras.val_text,
        fields_autoplaced: extras.fields_autoplaced,
        fields_user_placed: extras.fields_user_placed,
        dnp: extras.dnp,
        in_bom: extras.in_bom,
        on_board: extras.on_board,
        exclude_from_sim: extras.exclude_from_sim,
        locked: extras.locked,
        fields,
        custom_properties: extras.custom_properties,
        pin_uuids: extras.pin_uuids,
        instances: extras.instances,
    }
}

} // verus!
