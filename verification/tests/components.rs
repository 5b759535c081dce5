use cyancia::action::{ActionManifestLoader, ActionType, KeySequence, SerializableAction};
use cyancia::global_instance::GlobalInstance;
use cyancia::graph::{ErasedSlotValue, GraphSlotId, InputSlotId, OutputSlotId, SlotSide};
use cyancia::id::Id;
use cyancia::image::{CImage, Layer};
use cyancia::math::UVec2;

#[test]
fn ids_from_the_same_name_agree() {
    let a: Id<Layer> = Id::from_str("brush_tool");
    let b: Id<Layer> = Id::from_str("brush_tool");
    let c: Id<Layer> = Id::from_str("pan_tool");
    assert_eq!(a, b);
    assert_ne!(a, c);
    assert_eq!(a.value(), b.value());
}

#[test]
fn random_ids_avoid_the_sentinel() {
    let a: Id<Layer> = Id::random();
    let b: Id<Layer> = Id::random();
    assert_ne!(a.value(), 0);
    assert_ne!(b.value(), 0);
    assert_ne!(a.value(), b.value());
}

#[test]
fn layers_carry_fresh_identities() {
    let layer = Layer::new();
    assert_ne!(layer.id().value(), 0);
    assert_eq!((layer.size.x, layer.size.y), (0, 0));
    let img = CImage::new(UVec2::new(800, 600));
    assert_eq!(img.size().x, 800);
    assert_ne!(img.root().id().value(), 0);
}

#[test]
fn slot_sides_follow_slot_kinds() {
    let input = GraphSlotId::Input(InputSlotId { id: 1 });
    let output = GraphSlotId::Output(OutputSlotId { id: 2 });
    assert_eq!(SlotSide::from(input), SlotSide::Left);
    assert_eq!(SlotSide::from(output), SlotSide::Right);
}

#[test]
fn slot_values_hold_and_clear() {
    let mut slot: ErasedSlotValue<u32> = ErasedSlotValue::empty();
    assert!(slot.is_empty());
    assert_eq!(slot.as_ref(), None);
    slot.reset(7);
    assert!(!slot.is_empty());
    assert_eq!(slot.as_ref(), Some(&7));
    slot.clear();
    assert!(slot.is_empty());
    let filled = ErasedSlotValue::new(String::from("value"));
    assert_eq!(filled.as_ref().map(|s| s.as_str()), Some("value"));
}

#[test]
fn global_instance_hands_out_the_initialized_value() {
    let mut holder: GlobalInstance<u64> = GlobalInstance::new();
    holder.init(99);
    let a = holder.clone_arc();
    let b = holder.clone_arc();
    assert_eq!(*a, 99);
    assert_eq!(*b, 99);
}

#[test]
fn manifest_entries_become_actions_in_order() {
    let chord = KeySequence { modifiers: 1, key: 66 };
    let entries = vec![
        (
            String::from("open_file"),
            SerializableAction { ty: ActionType::OneShot, shortcut: vec![chord], priority: Some(3) },
        ),
        (
            String::from("pan_canvas"),
            SerializableAction { ty: ActionType::Hold, shortcut: vec![], priority: None },
        ),
    ];
    let manifest = ActionManifestLoader::read(entries);
    assert_eq!(manifest.actions.len(), 2);
    assert_eq!(manifest.actions[0].name, "open_file");
    assert_eq!(manifest.actions[0].ty, ActionType::OneShot);
    assert_eq!(manifest.actions[0].shortcut, vec![chord]);
    assert_eq!(manifest.actions[0].priority, 3);
    assert_eq!(manifest.actions[1].name, "pan_canvas");
    assert_eq!(manifest.actions[1].ty, ActionType::Hold);
    assert!(manifest.actions[1].shortcut.is_empty());
    assert_eq!(manifest.actions[1].priority, 0);
}
