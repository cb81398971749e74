use vstd::prelude::*;

verus! {

/// Keyboard modifiers
// Alfred does not support modifier combinations.
#[derive(Clone, Copy, Debug, Hash, PartialEq, Eq, Structural)]
pub enum Modifier {
    /// Command key
    CmdModifier,
    /// Option/Alt key
    AltModifier,
    /// Control key
    CtrlModifier,
    /// Shift key
    ShiftModifier,
    /// Fn key
    FnModifier,
}

/// Item icons
#[derive(PartialEq, Eq, Clone, Debug)]
pub enum Icon {
    /// Path to an image file on disk relative to the workflow directory
    PathIcon(String),
    /// Path to a file whose icon will be used
    FileIcon(String),
    /// UTI for a file type to use (e.g. public.folder)
    FileTypeIcon(String),
}

/// Item types
#[derive(Clone, Copy, Debug, PartialEq, Eq, Structural)]
pub enum ItemType {
    /// Default type for an item
    DefaultItemType,
    /// Type representing a file
    ///
    /// Alfred checks that the file exists on disk, and hides the result if it
    /// does not.
    FileItemType,
    /// Type representing a file, with filesystem checks skipped
    ///
    /// Similar to `FileItemType` but skips the check to ensure the file
    /// exists.
    FileSkipCheckItemType,
}

/// The abstract value of an [`Icon`]: which kind of icon, and its text.
pub enum IconModel {
    Path(Seq<char>),
    File(Seq<char>),
    FileType(Seq<char>),
}

impl View for Icon {
    type V = IconModel;

    open spec fn view(&self) -> IconModel {
        match self {
            Icon::PathIcon(s) => IconModel::Path(s@),
            Icon::FileIcon(s) => IconModel::File(s@),
            Icon::FileTypeIcon(s) => IconModel::FileType(s@),
        }
    }
}

/// The position of `key` in the order in which subtitles are written.
pub open spec fn key_rank(key: Option<Modifier>) -> int {
    match key {
        None => 0,
        Some(Modifier::CmdModifier) => 1,
        Some(Modifier::AltModifier) => 2,
        Some(Modifier::CtrlModifier) => 3,
        Some(Modifier::ShiftModifier) => 4,
        Some(Modifier::FnModifier) => 5,
    }
}

/// The subtitles of an item, keyed by the modifier that selects them; the key
/// `None` holds the default subtitle.
///
/// Each key holds at most one subtitle.
#[derive(PartialEq, Eq, Clone, Debug)]
pub struct SubtitleMap {
    default: Option<String>,
    cmd: Option<String>,
    alt: Option<String>,
    ctrl: Option<String>,
    shift: Option<String>,
    fn_key: Option<String>,
}

impl SubtitleMap {
    /// The subtitle stored under `key`.
    pub closed spec fn slot(&self, key: Option<Modifier>) -> Option<String> {
        match key {
            None => self.default,
            Some(Modifier::CmdModifier) => self.cmd,
            Some(Modifier::AltModifier) => self.alt,
            Some(Modifier::CtrlModifier) => self.ctrl,
            Some(Modifier::ShiftModifier) => self.shift,
            Some(Modifier::FnModifier) => self.fn_key,
        }
    }

    /// Returns an empty map.
    pub fn new() -> (m: SubtitleMap)
        ensures
            m@ == Map::<Option<Modifier>, Seq<char>>::empty(),
    {
        let m = SubtitleMap { default: None, cmd: None, alt: None, ctrl: None, shift: None, fn_key: None };
        assert(m@ =~= Map::<Option<Modifier>, Seq<char>>::empty());
        m
    }

    fn slot_mut(&mut self, key: Option<Modifier>) -> (r: &mut Option<String>)
        ensures
            *r == old(self).slot(key),
            forall|k: Option<Modifier>| k != key ==> final(self).slot(k) == old(self).slot(k),
            final(self).slot(key) == *final(r),
    {
        match key {
            None => &mut self.default,
            Some(Modifier::CmdModifier) => &mut self.cmd,
            Some(Modifier::AltModifier) => &mut self.alt,
            Some(Modifier::CtrlModifier) => &mut self.ctrl,
            Some(Modifier::ShiftModifier) => &mut self.shift,
            Some(Modifier::FnModifier) => &mut self.fn_key,
        }
    }

    /// Stores `value` under `key`, replacing what was there.
    pub fn insert(&mut self, key: Option<Modifier>, value: String)
        ensures
            final(self)@ == old(self)@.insert(key, value@),
    {
        let slot = self.slot_mut(key);
        *slot = Some(value);
        assert(final(self)@ =~= old(self)@.insert(key, value@));
    }

    /// Removes what is stored under `key`.
    pub fn remove(&mut self, key: Option<Modifier>)
        ensures
            final(self)@ == old(self)@.remove(key),
    {
        let slot = self.slot_mut(key);
        *slot = None;
        assert(final(self)@ =~= old(self)@.remove(key));
    }

    /// Removes every subtitle.
    pub fn clear(&mut self)
        ensures
            final(self)@ == Map::<Option<Modifier>, Seq<char>>::empty(),
    {
        *self = SubtitleMap::new();
    }

    /// Returns the keys that hold a subtitle, each once, in the order in which
    /// subtitles are written: the default one first, then Cmd, Alt, Ctrl,
    /// Shift and Fn.
    pub fn keys(&self) -> (r: Vec<Option<Modifier>>)
        ensures
            r@.no_duplicates(),
            forall|k: Option<Modifier>| r@.contains(k) <==> self@.contains_key(k),
            forall|a: int, b: int| 0 <= a < b < r@.len() ==> key_rank(r@[a]) < key_rank(r@[b]),
    {
        let all = [
            None,
            Some(Modifier::CmdModifier),
            Some(Modifier::AltModifier),
            Some(Modifier::CtrlModifier),
            Some(Modifier::ShiftModifier),
            Some(Modifier::FnModifier),
        ];
        let mut v: Vec<Option<Modifier>> = Vec::new();
        for i in 0..6
            invariant
                all@ == seq![
                    None,
                    Some(Modifier::CmdModifier),
                    Some(Modifier::AltModifier),
                    Some(Modifier::CtrlModifier),
                    Some(Modifier::ShiftModifier),
                    Some(Modifier::FnModifier),
                ],
                v@.no_duplicates(),
                forall|k: Option<Modifier>|
                    v@.contains(k) <==> (self@.contains_key(k) && all@.take(i as int).contains(k)),
                forall|j: int| 0 <= j < v@.len() ==> key_rank(#[trigger] v@[j]) < i,
                forall|a: int, b: int|
                    0 <= a < b < v@.len() ==> key_rank(v@[a]) < key_rank(v@[b]),
        {
            let key = all[i];
            assert(key_rank(key) == i);
            assert(all@.take(i + 1) =~= all@.take(i as int).push(key));
            assert(!all@.take(i as int).contains(key)) by {
                if all@.take(i as int).contains(key) {
                    let j = choose|j: int| 0 <= j < i && all@.take(i as int)[j] == key;
                    assert(all@[j] == all@[i as int]);
                }
            }
            let ghost old_v = v@;
            let present = self.get(key).is_some();
            if present {
                v.push(key);
                assert(!old_v.contains(key));
                assert(v@ == old_v.push(key));
                assert forall|a: int, b: int| 0 <= a < b < v@.len() implies v@[a] != v@[b] by {
                    if b == old_v.len() {
                        assert(old_v.contains(old_v[a]));
                    } else {
                        assert(v@[a] == old_v[a] && v@[b] == old_v[b]);
                    }
                }
            }
            assert forall|k: Option<Modifier>|
                v@.contains(k) <==> (self@.contains_key(k) && all@.take(i + 1).contains(k)) by {
                if v@.contains(k) {
                    let j = choose|j: int| 0 <= j < v@.len() && v@[j] == k;
                    if j < old_v.len() {
                        assert(old_v[j] == k);
                        assert(old_v.contains(k));
                        let t = all@.take(i as int);
                        let m = choose|m: int| 0 <= m < t.len() && #[trigger] t[m] == k;
                        assert(all@.take(i + 1)[m] == k);
                    } else {
                        assert(k == key);
                        assert(present);
                        assert(all@.take(i + 1)[i as int] == k);
                    }
                }
                if self@.contains_key(k) && all@.take(i + 1).contains(k) {
                    if k == key {
                        assert(v@[v@.len() - 1] == k);
                    } else {
                        let t = all@.take(i + 1);
                        let j = choose|j: int| 0 <= j < t.len() && #[trigger] t[j] == k;
                        assert(j < i);
                        assert(all@.take(i as int)[j] == k);
                        assert(old_v.contains(k));
                        let m = choose|m: int| 0 <= m < old_v.len() && old_v[m] == k;
                        assert(v@[m] == k);
                    }
                }
            }
        }
        assert forall|k: Option<Modifier>| #[trigger] self@.contains_key(k) implies all@.take(6).contains(k) by {
            assert(all@.take(6) =~= all@);
            match k {
                None => assert(all@[0] == k),
                Some(Modifier::CmdModifier) => assert(all@[1] == k),
                Some(Modifier::AltModifier) => assert(all@[2] == k),
                Some(Modifier::CtrlModifier) => assert(all@[3] == k),
                Some(Modifier::ShiftModifier) => assert(all@[4] == k),
                Some(Modifier::FnModifier) => assert(all@[5] == k),
            }
        }
        v
    }

    /// Returns the number of subtitles.
    pub fn len(&self) -> (r: usize)
        ensures
            r == self@.dom().len(),
    {
        let keys = self.keys();
        proof {
            keys@.unique_seq_to_set();
            assert(keys@.to_set() =~= self@.dom());
        }
        keys.len()
    }

    /// Returns the subtitle stored under `key`.
    pub fn get(&self, key: Option<Modifier>) -> (r: Option<&String>)
        ensures
            r is Some <==> self@.contains_key(key),
            r matches Some(s) ==> s@ == self@[key],
    {
        match key {
            None => self.default.as_ref(),
            Some(Modifier::CmdModifier) => self.cmd.as_ref(),
            Some(Modifier::AltModifier) => self.alt.as_ref(),
            Some(Modifier::CtrlModifier) => self.ctrl.as_ref(),
            Some(Modifier::ShiftModifier) => self.shift.as_ref(),
            Some(Modifier::FnModifier) => self.fn_key.as_ref(),
        }
    }
}

impl View for SubtitleMap {
    type V = Map<Option<Modifier>, Seq<char>>;

    open spec fn view(&self) -> Map<Option<Modifier>, Seq<char>> {
        Map::new(|k: Option<Modifier>| self.slot(k) is Some, |k: Option<Modifier>| self.slot(k)->0@)
    }
}

/// The abstract value of an [`Item`].
pub struct ItemModel {
    pub title: Seq<char>,
    pub subtitle: Map<Option<Modifier>, Seq<char>>,
    pub icon: Option<IconModel>,
    pub uid: Option<Seq<char>>,
    pub arg: Option<Seq<char>>,
    pub type_: ItemType,
    pub valid: bool,
    pub autocomplete: Option<Seq<char>>,
    pub text_copy: Option<Seq<char>>,
    pub text_large_type: Option<Seq<char>>,
}

/// The item that `Item::new` makes of `title`: no subtitle, icon, uid, arg,
/// autocomplete or texts, the default type, and valid.
pub open spec fn new_item_model(title: Seq<char>) -> ItemModel {
    ItemModel {
        title: title,
        subtitle: Map::empty(),
        icon: None,
        uid: None,
        arg: None,
        type_: ItemType::DefaultItemType,
        valid: true,
        autocomplete: None,
        text_copy: None,
        text_large_type: None,
    }
}

/// A new item holds the title it was made with, keeps it whole, and holds
/// nothing else: no subtitle, icon, uid, arg, autocomplete or texts; it is
/// of the default type and valid.
pub proof fn law_new_item(title: Seq<char>)
    ensures
        new_item_model(title).title == title,
        new_item_model(title).title.len() == title.len(),
        new_item_model(title).subtitle.dom().is_empty(),
        new_item_model(title).icon is None,
        new_item_model(title).uid is None,
        new_item_model(title).arg is None,
        new_item_model(title).type_ == ItemType::DefaultItemType,
        new_item_model(title).valid,
        new_item_model(title).autocomplete is None,
        new_item_model(title).text_copy is None,
        new_item_model(title).text_large_type is None,
{
    assert(new_item_model(title).subtitle.dom() =~= Set::<Option<Modifier>>::empty());
}

pub open spec fn icon_model(icon: Option<Icon>) -> Option<IconModel> {
    match icon {
        Some(i) => Some(i@),
        None => None,
    }
}

/// Representation of an `<item>`
#[derive(PartialEq, Eq, Clone, Debug)]
pub struct Item {
    /// Title for the item
    pub title: String,
    /// Subtitle for the item
    ///
    /// The subtitle may differ based on the active modifier.
    pub subtitle: SubtitleMap,
    /// Icon for the item
    pub icon: Option<Icon>,
    /// Identifier for the results
    ///
    /// If given, must be unique among items, and is used for prioritizing
    /// feedback results based on usage. If blank, Alfred presents results in
    /// the order given and does not learn from them.
    pub uid: Option<String>,
    /// The value that is passed to the next portion of the workflow when this
    /// item is selected
    pub arg: Option<String>,
    /// What type of result this is
    pub type_: ItemType,
    /// Whether or not the result is valid
    ///
    /// When `false`, actioning the result will populate the search field with
    /// the `autocomplete` value instead.
    pub valid: bool,
    /// Autocomplete data for the item
    ///
    /// This value is populated into the search field if the tab key is
    /// pressed. If `valid = false`, this value is populated if the item is
    /// actioned.
    pub autocomplete: Option<String>,
    /// What text the user gets when copying the result
    ///
    /// This value is copied if the user presses ⌘C.
    pub text_copy: Option<String>,
    /// What text the user gets when displaying large type
    ///
    /// This value is displayed if the user presses ⌘L.
    pub text_large_type: Option<String>,
}

impl View for Item {
    type V = ItemModel;

    open spec fn view(&self) -> ItemModel {
        ItemModel {
            title: self.title@,
            subtitle: self.subtitle@,
            icon: icon_model(self.icon),
            uid: self.uid.deep_view(),
            arg: self.arg.deep_view(),
            type_: self.type_,
            valid: self.valid,
            autocomplete: self.autocomplete.deep_view(),
            text_copy: self.text_copy.deep_view(),
            text_large_type: self.text_large_type.deep_view(),
        }
    }
}

impl Item {
    /// Returns a new `Item` with the given title
    pub fn new(title: &str) -> (item: Item)
        ensures
            item@ == new_item_model(title@),
    {
        Item {
            title: title.to_string(),
            subtitle: SubtitleMap::new(),
            icon: None,
            uid: None,
            arg: None,
            type_: ItemType::DefaultItemType,
            valid: true,
            autocomplete: None,
            text_copy: None,
            text_large_type: None,
        }
    }
}

} // verus!
