use signex_kicad::layer::{LayerKind, SignexLayer};

#[test]
fn altium_labels_match_reference() {
    assert_eq!(SignexLayer::TopCopper.altium_label(), "Top Layer");
    assert_eq!(SignexLayer::BottomCopper.altium_label(), "Bottom Layer");
    assert_eq!(SignexLayer::TopSilk.altium_label(), "Top Overlay");
    assert_eq!(SignexLayer::TopSolderMask.altium_label(), "Top Solder");
    assert_eq!(SignexLayer::TopPaste.altium_label(), "Top Paste");
    assert_eq!(SignexLayer::KeepOut.altium_label(), "Keep-Out");
    assert_eq!(SignexLayer::InnerCopper(2).altium_label(), "Mid Layer 2");
    assert_eq!(SignexLayer::Mechanical(13).altium_label(), "Mechanical 13");
}

#[test]
fn kinds_partition_correctly() {
    assert_eq!(SignexLayer::TopCopper.kind(), LayerKind::Copper);
    assert_eq!(SignexLayer::InnerCopper(1).kind(), LayerKind::Copper);
    assert_eq!(SignexLayer::TopSilk.kind(), LayerKind::Silk);
    assert_eq!(SignexLayer::TopSolderMask.kind(), LayerKind::Mask);
    assert_eq!(SignexLayer::BoardOutline.kind(), LayerKind::Outline);
    assert_eq!(SignexLayer::KeepOut.kind(), LayerKind::KeepOut);
}

#[test]
fn all_iteration_yields_canonical_set() {
    let v: Vec<_> = SignexLayer::all();
    assert_eq!(v.len(), 14);
    assert_eq!(v[0], SignexLayer::TopCopper);
    assert_eq!(v[v.len() - 1], SignexLayer::KeepOut);
}

#[test]
fn all_layers_have_distinct_labels() {
    let v = SignexLayer::all();
    for i in 0..v.len() {
        for j in 0..v.len() {
            if i != j {
                assert_ne!(v[i].altium_label(), v[j].altium_label());
            }
        }
    }
}

#[test]
fn numbered_layers_carry_their_index() {
    assert_eq!(SignexLayer::User(7).altium_label(), "User 7");
    assert_eq!(SignexLayer::InnerCopper(30).kind(), LayerKind::Copper);
    assert_eq!(SignexLayer::Mechanical(1).kind(), LayerKind::Mechanical);
}

#[test]
fn numbered_layers_of_different_families_have_different_labels() {
    for n in [0u8, 1, 9, 10, 99, 255] {
        assert_eq!(SignexLayer::InnerCopper(n).altium_label(), format!("Mid Layer {}", n));
        assert_eq!(SignexLayer::Mechanical(n).altium_label(), format!("Mechanical {}", n));
        assert_ne!(SignexLayer::InnerCopper(n).altium_label(), SignexLayer::User(n).altium_label());
        assert_ne!(SignexLayer::User(n).altium_label(), SignexLayer::User(n.wrapping_add(1)).altium_label());
    }
}
