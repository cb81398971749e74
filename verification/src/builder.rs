use vstd::prelude::*;

use crate::item::{Icon, IconModel, Item, ItemModel, ItemType, Modifier, SubtitleMap, new_item_model};

verus! {

/// Helper for building `Item` values
#[derive(Clone, Debug)]
pub struct ItemBuilder {
    item: Item,
}

impl View for ItemBuilder {
    type V = ItemModel;

    closed spec fn view(&self) -> ItemModel {
        self.item@
    }
}

impl ItemBuilder {
    /// Returns a new `ItemBuilder` with the given title
    pub fn new(title: &str) -> (b: ItemBuilder)
        ensures
            b@ == new_item_model(title@),
    {
        ItemBuilder { item: Item::new(title) }
    }

    /// Returns the built `Item`
    pub fn into_item(self) -> (item: Item)
        ensures
            item@ == self@,
    {
        self.item
    }

    /// Sets the `title` to the given value
    pub fn title(self, title: &str) -> (b: ItemBuilder)
        ensures
            b@ == (ItemModel { title: title@, ..self@ }),
    {
        let mut b = self;
        b.item.title = title.to_string();
        b
    }

    /// Sets the default `subtitle` to the given value
    ///
    /// This sets the default subtitle, used when no modifier is pressed,
    /// or when no subtitle is provided for the pressed modifier.
    pub fn subtitle(self, subtitle: &str) -> (b: ItemBuilder)
        ensures
            b@ == (ItemModel { subtitle: self@.subtitle.insert(None, subtitle@), ..self@ }),
    {
        let mut b = self;
        b.item.subtitle.insert(None, subtitle.to_string());
        b
    }

    /// Sets the `subtitle` to the given value with the given modifier
    ///
    /// This sets the subtitle to use when the given modifier is pressed.
    pub fn subtitle_mod(self, modifier: Modifier, subtitle: &str) -> (b: ItemBuilder)
        ensures
            b@ == (ItemModel {
                subtitle: self@.subtitle.insert(Some(modifier), subtitle@),
                ..self@
            }),
    {
        let mut b = self;
        b.item.subtitle.insert(Some(modifier), subtitle.to_string());
        b
    }

    /// Sets the `icon` to an image file on disk
    ///
    /// The path is interpreted relative to the workflow directory
    pub fn icon_path(self, path: &str) -> (b: ItemBuilder)
        ensures
            b@ == (ItemModel { icon: Some(IconModel::Path(path@)), ..self@ }),
    {
        let mut b = self;
        b.item.icon = Some(Icon::PathIcon(path.to_string()));
        b
    }

    /// Sets the `icon` to the icon for a given file on disk
    ///
    /// The path is interpreted relative to the workflow directory
    pub fn icon_file(self, path: &str) -> (b: ItemBuilder)
        ensures
            b@ == (ItemModel { icon: Some(IconModel::File(path@)), ..self@ }),
    {
        let mut b = self;
        b.item.icon = Some(Icon::FileIcon(path.to_string()));
        b
    }

    /// Sets the `icon` to the icon for a given file type
    ///
    /// The type is a UTI, such as "public.jpeg".
    pub fn icon_filetype(self, filetype: &str) -> (b: ItemBuilder)
        ensures
            b@ == (ItemModel { icon: Some(IconModel::FileType(filetype@)), ..self@ }),
    {
        let mut b = self;
        b.item.icon = Some(Icon::FileTypeIcon(filetype.to_string()));
        b
    }

    /// Sets the `uid` to the given value
    pub fn uid(self, uid: &str) -> (b: ItemBuilder)
        ensures
            b@ == (ItemModel { uid: Some(uid@), ..self@ }),
    {
        let mut b = self;
        b.item.uid = Some(uid.to_string());
        b
    }

    /// Sets the `arg` to the given value
    pub fn arg(self, arg: &str) -> (b: ItemBuilder)
        ensures
            b@ == (ItemModel { arg: Some(arg@), ..self@ }),
    {
        let mut b = self;
        b.item.arg = Some(arg.to_string());
        b
    }

    /// Sets the `type` to the given value
    pub fn type_(self, type_: ItemType) -> (b: ItemBuilder)
        ensures
            b@ == (ItemModel { type_: type_, ..self@ }),
    {
        let mut b = self;
        b.item.type_ = type_;
        b
    }

    /// Sets `valid` to `true`
    pub fn valid(self) -> (b: ItemBuilder)
        ensures
            b@ == (ItemModel { valid: true, ..self@ }),
    {
        let mut b = self;
        b.item.valid = true;
        b
    }

    /// Sets `valid` to `false`
    pub fn invalid(self) -> (b: ItemBuilder)
        ensures
            b@ == (ItemModel { valid: false, ..self@ }),
    {
        let mut b = self;
        b.item.valid = false;
        b
    }

    /// Sets `valid` to the given value
    pub fn set_valid(self, valid: bool) -> (b: ItemBuilder)
        ensures
            b@ == (ItemModel { valid: valid, ..self@ }),
    {
        let mut b = self;
        b.item.valid = valid;
        b
    }

    /// Sets `autocomplete` to the given value
    pub fn autocomplete(self, autocomplete: &str) -> (b: ItemBuilder)
        ensures
            b@ == (ItemModel { autocomplete: Some(autocomplete@), ..self@ }),
    {
        let mut b = self;
        b.item.autocomplete = Some(autocomplete.to_string());
        b
    }

    /// Sets `text_copy` to the given value
    pub fn set_text_copy(self, text: &str) -> (b: ItemBuilder)
        ensures
            b@ == (ItemModel { text_copy: Some(text@), ..self@ }),
    {
        let mut b = self;
        b.item.text_copy = Some(text.to_string());
        b
    }

    /// Sets `text_large_type` to the given value
    pub fn set_text_large_type(self, text: &str) -> (b: ItemBuilder)
        ensures
            b@ == (ItemModel { text_large_type: Some(text@), ..self@ }),
    {
        let mut b = self;
        b.item.text_large_type = Some(text.to_string());
        b
    }

    /// Unsets the default `subtitle`
    ///
    /// This unsets the default subtitle.
    pub fn unset_subtitle(self) -> (b: ItemBuilder)
        ensures
            b@ == (ItemModel { subtitle: self@.subtitle.remove(None), ..self@ }),
    {
        let mut b = self;
        b.item.subtitle.remove(None);
        b
    }

    /// Unsets the `subtitle` for the given modifier
    ///
    /// This unsets the subtitle that's used when the given modifier is pressed.
    pub fn unset_subtitle_mod(self, modifier: Modifier) -> (b: ItemBuilder)
        ensures
            b@ == (ItemModel { subtitle: self@.subtitle.remove(Some(modifier)), ..self@ }),
    {
        let mut b = self;
        b.item.subtitle.remove(Some(modifier));
        b
    }

    /// Clears the `subtitle` for all modifiers
    ///
    /// This unsets both the default subtitle and the per-modifier subtitles.
    pub fn clear_subtitle(self) -> (b: ItemBuilder)
        ensures
            b@ == (ItemModel { subtitle: Map::empty(), ..self@ }),
    {
        let mut b = self;
        b.item.subtitle.clear();
        b
    }

    /// Unsets the `icon`
    pub fn unset_icon(self) -> (b: ItemBuilder)
        ensures
            b@ == (ItemModel { icon: None, ..self@ }),
    {
        let mut b = self;
        b.item.icon = None;
        b
    }

    /// Unsets the `uid`
    pub fn unset_uid(self) -> (b: ItemBuilder)
        ensures
            b@ == (ItemModel { uid: None, ..self@ }),
    {
        let mut b = self;
        b.item.uid = None;
        b
    }

    /// Unsets the `arg`
    pub fn unset_arg(self) -> (b: ItemBuilder)
        ensures
            b@ == (ItemModel { arg: None, ..self@ }),
    {
        let mut b = self;
        b.item.arg = None;
        b
    }

    // `type` doesn't need unsetting, it uses a default of DefaultItemType instead

    /// Unsets `autocomplete`
    pub fn unset_autocomplete(self) -> (b: ItemBuilder)
        ensures
            b@ == (ItemModel { autocomplete: None, ..self@ }),
    {
        let mut b = self;
        b.item.autocomplete = None;
        b
    }

    /// Unsets `text_copy`
    pub fn unset_text_copy(self) -> (b: ItemBuilder)
        ensures
            b@ == (ItemModel { text_copy: None, ..self@ }),
    {
        let mut b = self;
        b.item.text_copy = None;
        b
    }

    /// Unsets `text_large_type`
    pub fn unset_text_large_type(self) -> (b: ItemBuilder)
        ensures
            b@ == (ItemModel { text_large_type: None, ..self@ }),
    {
        let mut b = self;
        b.item.text_large_type = None;
        b
    }
}

} // verus!
