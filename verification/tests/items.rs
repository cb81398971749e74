use alfred::builder::ItemBuilder;
use alfred::item::{Icon, Item, ItemType, Modifier, SubtitleMap};

#[test]
fn new_item_has_defaults() {
    let item = Item::new("Item 1");
    assert_eq!(item.title, "Item 1");
    assert_eq!(item.subtitle, SubtitleMap::new());
    assert_eq!(item.icon, None);
    assert_eq!(item.uid, None);
    assert_eq!(item.arg, None);
    assert_eq!(item.type_, ItemType::DefaultItemType);
    assert!(item.valid);
    assert_eq!(item.autocomplete, None);
    assert_eq!(item.text_copy, None);
    assert_eq!(item.text_large_type, None);
}

#[test]
fn builder_new_builds_new_item() {
    assert_eq!(ItemBuilder::new("Item 2").into_item(), Item::new("Item 2"));
}

#[test]
fn builder_sets_each_field() {
    let item = ItemBuilder::new("a")
        .title("Title")
        .subtitle("Sub")
        .subtitle_mod(Modifier::CmdModifier, "Cmd sub")
        .icon_path("icon.png")
        .uid("id")
        .arg("Argument")
        .type_(ItemType::FileItemType)
        .invalid()
        .autocomplete("auto")
        .set_text_copy("copy")
        .set_text_large_type("large")
        .into_item();
    assert_eq!(item.title, "Title");
    assert_eq!(item.subtitle.get(None).map(|s| s.as_str()), Some("Sub"));
    assert_eq!(item.subtitle.get(Some(Modifier::CmdModifier)).map(|s| s.as_str()), Some("Cmd sub"));
    assert_eq!(item.subtitle.get(Some(Modifier::AltModifier)), None);
    assert_eq!(item.icon, Some(Icon::PathIcon("icon.png".to_string())));
    assert_eq!(item.uid.as_deref(), Some("id"));
    assert_eq!(item.arg.as_deref(), Some("Argument"));
    assert_eq!(item.type_, ItemType::FileItemType);
    assert!(!item.valid);
    assert_eq!(item.autocomplete.as_deref(), Some("auto"));
    assert_eq!(item.text_copy.as_deref(), Some("copy"));
    assert_eq!(item.text_large_type.as_deref(), Some("large"));
}

#[test]
fn builder_icons_replace_each_other() {
    let b = ItemBuilder::new("a").icon_file("/Applications");
    assert_eq!(b.clone().into_item().icon, Some(Icon::FileIcon("/Applications".to_string())));
    let b = b.icon_filetype("public.folder");
    assert_eq!(b.clone().into_item().icon, Some(Icon::FileTypeIcon("public.folder".to_string())));
    assert_eq!(b.unset_icon().into_item().icon, None);
}

#[test]
fn builder_valid_flags() {
    assert!(!ItemBuilder::new("a").invalid().into_item().valid);
    assert!(ItemBuilder::new("a").invalid().valid().into_item().valid);
    assert!(!ItemBuilder::new("a").set_valid(false).into_item().valid);
    assert!(ItemBuilder::new("a").set_valid(false).set_valid(true).into_item().valid);
}

#[test]
fn builder_unset_restores_fresh_item() {
    let item = ItemBuilder::new("a")
        .uid("u")
        .arg("g")
        .autocomplete("c")
        .set_text_copy("t")
        .set_text_large_type("l")
        .icon_path("p")
        .unset_uid()
        .unset_arg()
        .unset_autocomplete()
        .unset_text_copy()
        .unset_text_large_type()
        .unset_icon()
        .into_item();
    assert_eq!(item, Item::new("a"));
}

#[test]
fn builder_subtitle_unsetting() {
    let b = ItemBuilder::new("a")
        .subtitle("default")
        .subtitle_mod(Modifier::AltModifier, "alt")
        .subtitle_mod(Modifier::ShiftModifier, "shift");
    let item = b.clone().unset_subtitle().into_item();
    assert_eq!(item.subtitle.get(None), None);
    assert_eq!(item.subtitle.get(Some(Modifier::AltModifier)).map(|s| s.as_str()), Some("alt"));
    let item = b.clone().unset_subtitle_mod(Modifier::AltModifier).into_item();
    assert_eq!(item.subtitle.get(None).map(|s| s.as_str()), Some("default"));
    assert_eq!(item.subtitle.get(Some(Modifier::AltModifier)), None);
    assert_eq!(item.subtitle.get(Some(Modifier::ShiftModifier)).map(|s| s.as_str()), Some("shift"));
    let item = b.clear_subtitle().into_item();
    assert_eq!(item.subtitle, SubtitleMap::new());
}

#[test]
fn subtitle_map_insert_replaces() {
    let mut m = SubtitleMap::new();
    m.insert(Some(Modifier::FnModifier), "one".to_string());
    m.insert(Some(Modifier::FnModifier), "two".to_string());
    assert_eq!(m.get(Some(Modifier::FnModifier)).map(|s| s.as_str()), Some("two"));
    m.remove(Some(Modifier::FnModifier));
    assert_eq!(m, SubtitleMap::new());
    m.insert(None, "x".to_string());
    m.insert(Some(Modifier::CtrlModifier), "y".to_string());
    m.clear();
    assert_eq!(m, SubtitleMap::new());
}

#[test]
fn subtitle_map_keys_and_len() {
    let mut m = SubtitleMap::new();
    assert_eq!(m.len(), 0);
    assert!(m.keys().is_empty());
    m.insert(Some(Modifier::ShiftModifier), "s".to_string());
    m.insert(None, "d".to_string());
    m.insert(Some(Modifier::CmdModifier), "c".to_string());
    m.insert(Some(Modifier::CmdModifier), "c2".to_string());
    assert_eq!(m.len(), 3);
    assert_eq!(m.keys(), vec![None, Some(Modifier::CmdModifier), Some(Modifier::ShiftModifier)]);
    m.remove(None);
    assert_eq!(m.len(), 2);
    assert_eq!(m.keys(), vec![Some(Modifier::CmdModifier), Some(Modifier::ShiftModifier)]);
}
