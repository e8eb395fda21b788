//! Signex-native PCB layers, identified by purpose rather than by index.

use vstd::prelude::*;

use crate::text::{concat_str, decimal, u64_decimal};

verus! {

/// A PCB layer identified by purpose, not by index.
#[derive(Debug, Clone, Copy, PartialEq, Eq, Hash, Structural)]
pub enum SignexLayer {
    TopCopper,
    BottomCopper,
    /// 1-based index of an inner-stackup copper layer.
    InnerCopper(u8),
    TopSilk,
    BottomSilk,
    TopSolderMask,
    BottomSolderMask,
    TopPaste,
    BottomPaste,
    TopAssembly,
    BottomAssembly,
    TopCourtyard,
    BottomCourtyard,
    BoardOutline,
    KeepOut,
    /// 1-based index of a user-defined mechanical layer.
    Mechanical(u8),
    /// 1-based index of a generic user layer (notes, comments, etc.).
    User(u8),
}

/// Coarse category for theme rendering and picker grouping.
#[derive(Debug, Clone, Copy, PartialEq, Eq, Hash, Structural)]
pub enum LayerKind {
    Copper,
    Silk,
    Mask,
    Paste,
    Assembly,
    Courtyard,
    Outline,
    KeepOut,
    Mechanical,
    User,
}

pub open spec fn kind_spec(l: SignexLayer) -> LayerKind {
    match l {
        SignexLayer::TopCopper | SignexLayer::BottomCopper | SignexLayer::InnerCopper(_) => LayerKind::Copper,
        SignexLayer::TopSilk | SignexLayer::BottomSilk => LayerKind::Silk,
        SignexLayer::TopSolderMask | SignexLayer::BottomSolderMask => LayerKind::Mask,
        SignexLayer::TopPaste | SignexLayer::BottomPaste => LayerKind::Paste,
        SignexLayer::TopAssembly | SignexLayer::BottomAssembly => LayerKind::Assembly,
        SignexLayer::TopCourtyard | SignexLayer::BottomCourtyard => LayerKind::Courtyard,
        SignexLayer::BoardOutline => LayerKind::Outline,
        SignexLayer::KeepOut => LayerKind::KeepOut,
        SignexLayer::Mechanical(_) => LayerKind::Mechanical,
        SignexLayer::User(_) => LayerKind::User,
    }
}

pub open spec fn label_spec(l: SignexLayer) -> Seq<char> {
    match l {
        SignexLayer::TopCopper => "Top Layer"@,
        SignexLayer::BottomCopper => "Bottom Layer"@,
        SignexLayer::InnerCopper(n) => "Mid Layer "@ + decimal(n as nat),
        SignexLayer::TopSilk => "Top Overlay"@,
        SignexLayer::BottomSilk => "Bottom Overlay"@,
        SignexLayer::TopSolderMask => "Top Solder"@,
        SignexLayer::BottomSolderMask => "Bottom Solder"@,
        SignexLayer::TopPaste => "Top Paste"@,
        SignexLayer::BottomPaste => "Bottom Paste"@,
        SignexLayer::TopAssembly => "Top Assembly"@,
        SignexLayer::BottomAssembly => "Bottom Assembly"@,
        SignexLayer::TopCourtyard => "Top Courtyard"@,
        SignexLayer::BottomCourtyard => "Bottom Courtyard"@,
        SignexLayer::BoardOutline => "Board Outline"@,
        SignexLayer::KeepOut => "Keep-Out"@,
        SignexLayer::Mechanical(n) => "Mechanical "@ + decimal(n as nat),
        SignexLayer::User(n) => "User "@ + decimal(n as nat),
    }
}

proof fn lemma_decimal_injective(a: nat, b: nat)
    requires
        decimal(a) == decimal(b),
    ensures
        a == b,
{
    crate::cell_laws::lemma_digits_value_decimal(a);
    crate::cell_laws::lemma_digits_value_decimal(b);
}

proof fn lemma_suffix_equal(p: Seq<char>, x: Seq<char>, y: Seq<char>)
    requires
        p + x == p + y,
    ensures
        x == y,
{
    assert(x =~= (p + x).skip(p.len() as int));
    assert(y =~= (p + y).skip(p.len() as int));
}

/// Different layers have different labels.
pub proof fn lemma_labels_distinct(l1: SignexLayer, l2: SignexLayer)
    requires
        l1 != l2,
    ensures
        label_spec(l1) != label_spec(l2),
{
    reveal_strlit("Top Layer");
    reveal_strlit("Bottom Layer");
    reveal_strlit("Mid Layer ");
    reveal_strlit("Top Overlay");
    reveal_strlit("Bottom Overlay");
    reveal_strlit("Top Solder");
    reveal_strlit("Bottom Solder");
    reveal_strlit("Top Paste");
    reveal_strlit("Bottom Paste");
    reveal_strlit("Top Assembly");
    reveal_strlit("Bottom Assembly");
    reveal_strlit("Top Courtyard");
    reveal_strlit("Bottom Courtyard");
    reveal_strlit("Board Outline");
    reveal_strlit("Keep-Out");
    reveal_strlit("Mechanical ");
    reveal_strlit("User ");
    if label_spec(l1) == label_spec(l2) {
        let s = label_spec(l1);
        assert(s[0] == label_spec(l2)[0]);
        assert(s.len() == label_spec(l2).len());
        match (l1, l2) {
            (SignexLayer::InnerCopper(a), SignexLayer::InnerCopper(b)) => {
                lemma_suffix_equal("Mid Layer "@, decimal(a as nat), decimal(b as nat));
                lemma_decimal_injective(a as nat, b as nat);
            },
            (SignexLayer::Mechanical(a), SignexLayer::Mechanical(b)) => {
                lemma_suffix_equal("Mechanical "@, decimal(a as nat), decimal(b as nat));
                lemma_decimal_injective(a as nat, b as nat);
            },
            (SignexLayer::User(a), SignexLayer::User(b)) => {
                lemma_suffix_equal("User "@, decimal(a as nat), decimal(b as nat));
                lemma_decimal_injective(a as nat, b as nat);
            },
            _ => {
                assert(s[1] == label_spec(l2)[1]);
                assert(s[4] == label_spec(l2)[4]);
                assert(s[7] == label_spec(l2)[7]);
            },
        }
    }
}

/// The fixed (non-parameterised) layers in display order.
pub open spec fn all_spec() -> Seq<SignexLayer> {
    seq![
        SignexLayer::TopCopper,
        SignexLayer::BottomCopper,
        SignexLayer::TopSilk,
        SignexLayer::BottomSilk,
        SignexLayer::TopSolderMask,
        SignexLayer::BottomSolderMask,
        SignexLayer::TopPaste,
        SignexLayer::BottomPaste,
        SignexLayer::TopAssembly,
        SignexLayer::BottomAssembly,
        SignexLayer::TopCourtyard,
        SignexLayer::BottomCourtyard,
        SignexLayer::BoardOutline,
        SignexLayer::KeepOut,
    ]
}

pub open spec fn is_parameterised(l: SignexLayer) -> bool {
    l is InnerCopper || l is Mechanical || l is User
}

impl SignexLayer {
    pub fn kind(self) -> (r: LayerKind)
        ensures
            r == kind_spec(self),
    {
        match self {
            Self::TopCopper | Self::BottomCopper | Self::InnerCopper(_) => LayerKind::Copper,
            Self::TopSilk | Self::BottomSilk => LayerKind::Silk,
            Self::TopSolderMask | Self::BottomSolderMask => LayerKind::Mask,
            Self::TopPaste | Self::BottomPaste => LayerKind::Paste,
            Self::TopAssembly | Self::BottomAssembly => LayerKind::Assembly,
            Self::TopCourtyard | Self::BottomCourtyard => LayerKind::Courtyard,
            Self::BoardOutline => LayerKind::Outline,
            Self::KeepOut => LayerKind::KeepOut,
            Self::Mechanical(_) => LayerKind::Mechanical,
            Self::User(_) => LayerKind::User,
        }
    }

    /// Display label in the Altium style of the Signex UI.
    pub fn altium_label(self) -> (r: String)
        ensures
            r@ == label_spec(self),
    {
        match self {
            Self::TopCopper => "Top Layer".to_owned(),
            Self::BottomCopper => "Bottom Layer".to_owned(),
            Self::InnerCopper(n) => concat_str("Mid Layer ", u64_decimal(n as u64).as_slice()),
            Self::TopSilk => "Top Overlay".to_owned(),
            Self::BottomSilk => "Bottom Overlay".to_owned(),
            Self::TopSolderMask => "Top Solder".to_owned(),
            Self::BottomSolderMask => "Bottom Solder".to_owned(),
            Self::TopPaste => "Top Paste".to_owned(),
            Self::BottomPaste => "Bottom Paste".to_owned(),
            Self::TopAssembly => "Top Assembly".to_owned(),
            Self::BottomAssembly => "Bottom Assembly".to_owned(),
            Self::TopCourtyard => "Top Courtyard".to_owned(),
            Self::BottomCourtyard => "Bottom Courtyard".to_owned(),
            Self::BoardOutline => "Board Outline".to_owned(),
            Self::KeepOut => "Keep-Out".to_owned(),
            Self::Mechanical(n) => concat_str("Mechanical ", u64_decimal(n as u64).as_slice()),
            Self::User(n) => concat_str("User ", u64_decimal(n as u64).as_slice()),
        }
    }

    /// The canonical fixed-set layers in stable display order; the
    /// parameterised layers (`InnerCopper`, `Mechanical`, `User`) are left
    /// to callers, who provide their own indices.
    pub fn all() -> (r: Vec<SignexLayer>)
        ensures
            r@ == all_spec(),
    {
        let r = vec![
            Self::TopCopper,
            Self::BottomCopper,
            Self::TopSilk,
            Self::BottomSilk,
            Self::TopSolderMask,
            Self::BottomSolderMask,
            Self::TopPaste,
            Self::BottomPaste,
            Self::TopAssembly,
            Self::BottomAssembly,
            Self::TopCourtyard,
            Self::BottomCourtyard,
            Self::BoardOutline,
            Self::KeepOut,
        ];
        assert(r@ =~= all_spec());
        r
    }
}

/// `all` lists fourteen distinct layers, none of them parameterised, and
/// every fixed layer among them.
pub proof fn lemma_all_is_the_fixed_set(l: SignexLayer)
    ensures
        all_spec().len() == 14,
        forall|i: int, j: int| 0 <= i < j < 14 ==> all_spec()[i] != all_spec()[j],
        forall|i: int| 0 <= i < 14 ==> !is_parameterised(#[trigger] all_spec()[i]),
        !is_parameterised(l) ==> all_spec().contains(l),
{
    if !is_parameterised(l) {
        let k: int = match l {
            SignexLayer::TopCopper => 0,
            SignexLayer::BottomCopper => 1,
            SignexLayer::TopSilk => 2,
            SignexLayer::BottomSilk => 3,
            SignexLayer::TopSolderMask => 4,
            SignexLayer::BottomSolderMask => 5,
            SignexLayer::TopPaste => 6,
            SignexLayer::BottomPaste => 7,
            SignexLayer::TopAssembly => 8,
            SignexLayer::BottomAssembly => 9,
            SignexLayer::TopCourtyard => 10,
            SignexLayer::BottomCourtyard => 11,
            SignexLayer::BoardOutline => 12,
            _ => 13,
        };
        assert(all_spec()[k] == l);
    }
}

/// Default layer colours (Altium-flavoured palette), as RGBA.
pub fn default_layer_colors() -> (r: Vec<(SignexLayer, [u8; 4])>)
    ensures
        r@.len() == 14,
        forall|i: int| 0 <= i < 14 ==> (#[trigger] r@[i]).0 == all_spec()[i],
{
    let r = vec![
        (SignexLayer::TopCopper, [0xC8u8, 0x00, 0x00, 0xFF]),
        (SignexLayer::BottomCopper, [0x00u8, 0x00, 0xC8, 0xFF]),
        (SignexLayer::TopSilk, [0xC8u8, 0xC8, 0x00, 0xFF]),
        (SignexLayer::BottomSilk, [0x80u8, 0x00, 0x80, 0xFF]),
        (SignexLayer::TopSolderMask, [0xC8u8, 0x00, 0xC8, 0x80]),
        (SignexLayer::BottomSolderMask, [0x00u8, 0xC8, 0xC8, 0x80]),
        (SignexLayer::TopPaste, [0x80u8, 0x80, 0x00, 0xC0]),
        (SignexLayer::BottomPaste, [0x00u8, 0x80, 0x80, 0xC0]),
        (SignexLayer::TopAssembly, [0x80u8, 0x80, 0x80, 0xFF]),
        (SignexLayer::BottomAssembly, [0x60u8, 0x60, 0x60, 0xFF]),
        (SignexLayer::TopCourtyard, [0xC0u8, 0xC0, 0xC0, 0xFF]),
        (SignexLayer::BottomCourtyard, [0xA0u8, 0xA0, 0xA0, 0xFF]),
        (SignexLayer::BoardOutline, [0xFFu8, 0xFF, 0x00, 0xFF]),
        (SignexLayer::KeepOut, [0xFFu8, 0x00, 0xFF, 0xFF]),
    ];
    r
}

} // verus!
