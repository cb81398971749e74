use vstd::prelude::*;

use crate::escape::{encode_entities, encoded, holds_at};
use crate::item::{Icon, IconModel, Item, ItemModel, ItemType, Modifier};

verus! {

/// `n` levels of indentation, four spaces each.
pub open spec fn indent_text(n: nat) -> Seq<char>
    decreases n,
{
    if n == 0 {
        seq![]
    } else {
        indent_text((n - 1) as nat) + "    "@
    }
}

/// The text that starts an XML document of items.
pub open spec fn xml_header() -> Seq<char> {
    "<?xml version=\"1.0\" encoding=\"UTF-8\"?>\n<items>\n"@
}

/// The text that ends an XML document of items.
pub open spec fn xml_footer() -> Seq<char> {
    "</items>\n"@
}

/// An attribute whose value is given: `prefix`, the encoded value and a
/// closing quote; nothing when there is no value.
pub open spec fn opt_attr(prefix: Seq<char>, value: Option<Seq<char>>) -> Seq<char> {
    match value {
        Some(v) => prefix + encoded(v) + "\""@,
        None => seq![],
    }
}

/// The `type` attribute, present for the two file types.
pub open spec fn type_attr(t: ItemType) -> Seq<char> {
    match t {
        ItemType::DefaultItemType => seq![],
        ItemType::FileItemType => " type=\"file\""@,
        ItemType::FileSkipCheckItemType => " type=\"file:skipcheck\""@,
    }
}

/// The `valid` attribute, present when the item is not valid.
pub open spec fn valid_attr(valid: bool) -> Seq<char> {
    if valid {
        seq![]
    } else {
        " valid=\"no\""@
    }
}

/// The line that opens an `<item>` element, with its attributes.
pub open spec fn open_tag(item: ItemModel, indent: nat) -> Seq<char> {
    indent_text(indent) + "<item"@ + opt_attr(" uid=\""@, item.uid) + opt_attr(" arg=\""@, item.arg)
        + type_attr(item.type_) + valid_attr(item.valid) + opt_attr(
        " autocomplete=\""@,
        item.autocomplete,
    ) + ">\n"@
}

/// The `<title>` line.
pub open spec fn title_line(title: Seq<char>, lead: Seq<char>) -> Seq<char> {
    lead + "<title>"@ + encoded(title) + "</title>\n"@
}

/// The name Alfred gives a modifier in the `mod` attribute.
pub open spec fn modifier_name(m: Modifier) -> Seq<char> {
    match m {
        Modifier::CmdModifier => "cmd"@,
        Modifier::AltModifier => "alt"@,
        Modifier::CtrlModifier => "ctrl"@,
        Modifier::ShiftModifier => "shift"@,
        Modifier::FnModifier => "fn"@,
    }
}

/// The opening `<subtitle>` tag for a key: with a `mod` attribute for a
/// modifier, without one for the default subtitle.
pub open spec fn subtitle_open(key: Option<Modifier>) -> Seq<char> {
    match key {
        Some(m) => "<subtitle mod=\""@ + modifier_name(m) + "\">"@,
        None => "<subtitle>"@,
    }
}

/// The order in which subtitles are written: the default one first, then one
/// per modifier.
pub open spec fn subtitle_keys() -> Seq<Option<Modifier>> {
    seq![
        None,
        Some(Modifier::CmdModifier),
        Some(Modifier::AltModifier),
        Some(Modifier::CtrlModifier),
        Some(Modifier::ShiftModifier),
        Some(Modifier::FnModifier),
    ]
}

/// The `<subtitle>` line for `key`, or nothing when `key` has no subtitle.
pub open spec fn subtitle_line(
    subtitles: Map<Option<Modifier>, Seq<char>>,
    key: Option<Modifier>,
    lead: Seq<char>,
) -> Seq<char> {
    if subtitles.contains_key(key) {
        lead + subtitle_open(key) + encoded(subtitles[key]) + "</subtitle>\n"@
    } else {
        seq![]
    }
}

/// The `<subtitle>` lines for the given keys, in order.
pub open spec fn subtitle_lines(
    subtitles: Map<Option<Modifier>, Seq<char>>,
    keys: Seq<Option<Modifier>>,
    lead: Seq<char>,
) -> Seq<char>
    decreases keys.len(),
{
    if keys.len() == 0 {
        seq![]
    } else {
        subtitle_lines(subtitles, keys.drop_last(), lead) + subtitle_line(
            subtitles,
            keys.last(),
            lead,
        )
    }
}

/// The `<icon>` line, or nothing when there is no icon.
pub open spec fn icon_line(icon: Option<IconModel>, lead: Seq<char>) -> Seq<char> {
    match icon {
        Some(IconModel::Path(s)) => lead + "<icon>"@ + encoded(s) + "</icon>\n"@,
        Some(IconModel::File(s)) => lead + "<icon type=\"fileicon\">"@ + encoded(s)
            + "</icon>\n"@,
        Some(IconModel::FileType(s)) => lead + "<icon type=\"filetype\">"@ + encoded(
            s,
        ) + "</icon>\n"@,
        None => seq![],
    }
}

/// A `<text>` line with the given opening tag, or nothing when there is no
/// text.
pub open spec fn text_line(open: Seq<char>, text: Option<Seq<char>>, lead: Seq<char>) -> Seq<char> {
    match text {
        Some(t) => lead + open + encoded(t) + "</text>\n"@,
        None => seq![],
    }
}

/// The lines inside an `<item>` element, each led by `lead`.
pub open spec fn item_body(item: ItemModel, lead: Seq<char>) -> Seq<char> {
    title_line(item.title, lead) + subtitle_lines(item.subtitle, subtitle_keys(), lead) + icon_line(
        item.icon,
        lead,
    ) + text_line("<text type=\"copy\">"@, item.text_copy, lead) + text_line(
        "<text type=\"largetype\">"@,
        item.text_large_type,
        lead,
    )
}

/// The XML fragment of an item whose `<item>` tags stand at indentation
/// `indent`.
pub open spec fn item_xml(item: ItemModel, indent: nat) -> Seq<char> {
    open_tag(item, indent) + item_body(item, indent_text(indent + 1)) + indent_text(indent) + "</item>\n"@
}

/// The fragments of the items, one after the other, at indentation `indent`.
pub open spec fn items_xml(items: Seq<ItemModel>, indent: nat) -> Seq<char>
    decreases items.len(),
{
    if items.len() == 0 {
        seq![]
    } else {
        items_xml(items.drop_last(), indent) + item_xml(items.last(), indent)
    }
}

/// The complete XML document of the items.
pub open spec fn document(items: Seq<ItemModel>) -> Seq<char> {
    xml_header() + items_xml(items, 1) + xml_footer()
}

/// The abstract values of a slice of items.
pub open spec fn item_models(items: Seq<Item>) -> Seq<ItemModel> {
    items.map_values(|i: Item| i@)
}

/// The fragments of two runs of items, one after the other, are the
/// fragments of the joined run: a document can be written item by item.
pub proof fn law_items_xml_concat(a: Seq<ItemModel>, b: Seq<ItemModel>, indent: nat)
    ensures
        items_xml(a + b, indent) == items_xml(a, indent) + items_xml(b, indent),
    decreases b.len(),
{
    if b.len() == 0 {
        assert(a + b =~= a);
        assert(items_xml(a, indent) + items_xml(b, indent) =~= items_xml(a, indent));
    } else {
        assert((a + b).drop_last() =~= a + b.drop_last());
        assert((a + b).last() == b.last());
        law_items_xml_concat(a, b.drop_last(), indent);
        assert(items_xml(a + b, indent) =~= items_xml(a, indent) + items_xml(b, indent));
    }
}

/// An item without subtitles has no `<subtitle>` lines.
pub proof fn law_no_subtitle_lines(keys: Seq<Option<Modifier>>, lead: Seq<char>)
    ensures
        subtitle_lines(Map::empty(), keys, lead) == Seq::<char>::empty(),
    decreases keys.len(),
{
    if keys.len() > 0 {
        law_no_subtitle_lines(keys.drop_last(), lead);
        assert(subtitle_lines(Map::empty(), keys, lead) =~= Seq::<char>::empty());
    }
}

/// `piece` stands somewhere in `text`.
pub open spec fn occurs_in(piece: Seq<char>, text: Seq<char>) -> bool {
    exists|i: int| #[trigger] holds_at(text, i, piece)
}

proof fn lemma_occurs_whole(p: Seq<char>)
    ensures
        occurs_in(p, p),
{
    assert(p.subrange(0, p.len() as int) =~= p);
    assert(holds_at(p, 0, p));
}

proof fn lemma_occurs_left(p: Seq<char>, t: Seq<char>, a: Seq<char>)
    requires
        occurs_in(p, t),
    ensures
        occurs_in(p, a + t),
{
    let i = choose|i: int| #[trigger] holds_at(t, i, p);
    assert((a + t).subrange(i + a.len(), i + a.len() + p.len()) =~= t.subrange(i, i + p.len()));
    assert(holds_at(a + t, i + a.len(), p));
}

proof fn lemma_occurs_right(p: Seq<char>, t: Seq<char>, b: Seq<char>)
    requires
        occurs_in(p, t),
    ensures
        occurs_in(p, t + b),
{
    let i = choose|i: int| #[trigger] holds_at(t, i, p);
    assert((t + b).subrange(i, i + p.len()) =~= t.subrange(i, i + p.len()));
    assert(holds_at(t + b, i, p));
}

proof fn lemma_occurs_trans(p: Seq<char>, q: Seq<char>, t: Seq<char>)
    requires
        occurs_in(p, q),
        occurs_in(q, t),
    ensures
        occurs_in(p, t),
{
    let i = choose|i: int| #[trigger] holds_at(q, i, p);
    let j = choose|j: int| #[trigger] holds_at(t, j, q);
    assert(t.subrange(j + i, j + i + p.len()) =~= q.subrange(i, i + p.len()));
    assert(holds_at(t, j + i, p));
}

/// What stands in the body of an item stands in the item's fragment.
proof fn lemma_occurs_body_in_item(p: Seq<char>, item: ItemModel, indent: nat)
    requires
        occurs_in(p, item_body(item, indent_text(indent + 1))),
    ensures
        occurs_in(p, item_xml(item, indent)),
{
    let body = item_body(item, indent_text(indent + 1));
    lemma_occurs_left(p, body, open_tag(item, indent));
    lemma_occurs_right(p, open_tag(item, indent) + body, indent_text(indent));
    lemma_occurs_right(p, open_tag(item, indent) + body + indent_text(indent), "</item>\n"@);
}

/// What stands in the opening tag of an item stands in the item's fragment.
proof fn lemma_occurs_open_in_item(p: Seq<char>, item: ItemModel, indent: nat)
    requires
        occurs_in(p, open_tag(item, indent)),
    ensures
        occurs_in(p, item_xml(item, indent)),
{
    let o = open_tag(item, indent);
    let body = item_body(item, indent_text(indent + 1));
    lemma_occurs_right(p, o, body);
    lemma_occurs_right(p, o + body, indent_text(indent));
    lemma_occurs_right(p, o + body + indent_text(indent), "</item>\n"@);
}

/// The fragment of an item holds its title, entity-encoded, in a `<title>`
/// element on a line indented one level deeper than the item.
pub proof fn law_item_xml_title(item: ItemModel, indent: nat)
    ensures
        occurs_in(
            indent_text(indent + 1) + "<title>"@ + encoded(item.title) + "</title>\n"@,
            item_xml(item, indent),
        ),
{
    let lead = indent_text(indent + 1);
    let p = lead + "<title>"@ + encoded(item.title) + "</title>\n"@;
    lemma_occurs_whole(p);
    let t = title_line(item.title, lead);
    let s = subtitle_lines(item.subtitle, subtitle_keys(), lead);
    let i = icon_line(item.icon, lead);
    let c = text_line("<text type=\"copy\">"@, item.text_copy, lead);
    let l = text_line("<text type=\"largetype\">"@, item.text_large_type, lead);
    lemma_occurs_right(p, t, s);
    lemma_occurs_right(p, t + s, i);
    lemma_occurs_right(p, t + s + i, c);
    lemma_occurs_right(p, t + s + i + c, l);
    lemma_occurs_body_in_item(p, item, indent);
}

/// The opening tag of an item holds each of its attribute values
/// entity-encoded, and the attributes for its type and validity.
pub proof fn law_item_xml_attributes(item: ItemModel, indent: nat)
    ensures
        item.uid matches Some(v) ==> occurs_in(
            " uid=\""@ + encoded(v) + "\""@,
            item_xml(item, indent),
        ),
        item.arg matches Some(v) ==> occurs_in(
            " arg=\""@ + encoded(v) + "\""@,
            item_xml(item, indent),
        ),
        item.autocomplete matches Some(v) ==> occurs_in(
            " autocomplete=\""@ + encoded(v) + "\""@,
            item_xml(item, indent),
        ),
        item.type_ == ItemType::FileItemType ==> occurs_in(
            " type=\"file\""@,
            item_xml(item, indent),
        ),
        item.type_ == ItemType::FileSkipCheckItemType ==> occurs_in(
            " type=\"file:skipcheck\""@,
            item_xml(item, indent),
        ),
        !item.valid ==> occurs_in(" valid=\"no\""@, item_xml(item, indent)),
{
    let a0 = indent_text(indent) + "<item"@;
    let u = opt_attr(" uid=\""@, item.uid);
    let g = opt_attr(" arg=\""@, item.arg);
    let ty = type_attr(item.type_);
    let va = valid_attr(item.valid);
    let au = opt_attr(" autocomplete=\""@, item.autocomplete);
    let close = ">\n"@;
    assert(open_tag(item, indent) == a0 + u + g + ty + va + au + close);
    if let Some(v) = item.uid {
        let p = " uid=\""@ + encoded(v) + "\""@;
        lemma_occurs_whole(p);
        lemma_occurs_left(p, u, a0);
        lemma_occurs_right(p, a0 + u, g);
        lemma_occurs_right(p, a0 + u + g, ty);
        lemma_occurs_right(p, a0 + u + g + ty, va);
        lemma_occurs_right(p, a0 + u + g + ty + va, au);
        lemma_occurs_right(p, a0 + u + g + ty + va + au, close);
        lemma_occurs_open_in_item(p, item, indent);
    }
    if let Some(v) = item.arg {
        let p = " arg=\""@ + encoded(v) + "\""@;
        lemma_occurs_whole(p);
        lemma_occurs_left(p, g, a0 + u);
        lemma_occurs_right(p, a0 + u + g, ty);
        lemma_occurs_right(p, a0 + u + g + ty, va);
        lemma_occurs_right(p, a0 + u + g + ty + va, au);
        lemma_occurs_right(p, a0 + u + g + ty + va + au, close);
        lemma_occurs_open_in_item(p, item, indent);
    }
    if item.type_ != ItemType::DefaultItemType {
        let p = ty;
        lemma_occurs_whole(p);
        lemma_occurs_left(p, ty, a0 + u + g);
        lemma_occurs_right(p, a0 + u + g + ty, va);
        lemma_occurs_right(p, a0 + u + g + ty + va, au);
        lemma_occurs_right(p, a0 + u + g + ty + va + au, close);
        lemma_occurs_open_in_item(p, item, indent);
    }
    if !item.valid {
        let p = va;
        lemma_occurs_whole(p);
        lemma_occurs_left(p, va, a0 + u + g + ty);
        lemma_occurs_right(p, a0 + u + g + ty + va, au);
        lemma_occurs_right(p, a0 + u + g + ty + va + au, close);
        lemma_occurs_open_in_item(p, item, indent);
    }
    if let Some(v) = item.autocomplete {
        let p = " autocomplete=\""@ + encoded(v) + "\""@;
        lemma_occurs_whole(p);
        lemma_occurs_left(p, au, a0 + u + g + ty + va);
        lemma_occurs_right(p, a0 + u + g + ty + va + au, close);
        lemma_occurs_open_in_item(p, item, indent);
    }
}

proof fn lemma_subtitle_line_in_lines(
    subtitles: Map<Option<Modifier>, Seq<char>>,
    keys: Seq<Option<Modifier>>,
    key: Option<Modifier>,
    lead: Seq<char>,
)
    requires
        keys.contains(key),
    ensures
        occurs_in(subtitle_line(subtitles, key, lead), subtitle_lines(subtitles, keys, lead)),
    decreases keys.len(),
{
    let line = subtitle_line(subtitles, key, lead);
    let rest = subtitle_lines(subtitles, keys.drop_last(), lead);
    if keys.last() == key {
        lemma_occurs_whole(line);
        lemma_occurs_left(line, line, rest);
    } else {
        let j = choose|j: int| 0 <= j < keys.len() && keys[j] == key;
        assert(keys.drop_last()[j] == key);
        lemma_subtitle_line_in_lines(subtitles, keys.drop_last(), key, lead);
        lemma_occurs_right(line, rest, subtitle_line(subtitles, keys.last(), lead));
    }
}

proof fn lemma_occurs_subtitles_in_body(p: Seq<char>, item: ItemModel, lead: Seq<char>)
    requires
        occurs_in(p, subtitle_lines(item.subtitle, subtitle_keys(), lead)),
    ensures
        occurs_in(p, item_body(item, lead)),
{
    let t = title_line(item.title, lead);
    let s = subtitle_lines(item.subtitle, subtitle_keys(), lead);
    let i = icon_line(item.icon, lead);
    let c = text_line("<text type=\"copy\">"@, item.text_copy, lead);
    let l = text_line("<text type=\"largetype\">"@, item.text_large_type, lead);
    lemma_occurs_left(p, s, t);
    lemma_occurs_right(p, t + s, i);
    lemma_occurs_right(p, t + s + i, c);
    lemma_occurs_right(p, t + s + i + c, l);
}

proof fn lemma_occurs_icon_in_body(p: Seq<char>, item: ItemModel, lead: Seq<char>)
    requires
        occurs_in(p, icon_line(item.icon, lead)),
    ensures
        occurs_in(p, item_body(item, lead)),
{
    let t = title_line(item.title, lead);
    let s = subtitle_lines(item.subtitle, subtitle_keys(), lead);
    let i = icon_line(item.icon, lead);
    let c = text_line("<text type=\"copy\">"@, item.text_copy, lead);
    let l = text_line("<text type=\"largetype\">"@, item.text_large_type, lead);
    lemma_occurs_left(p, i, t + s);
    lemma_occurs_right(p, t + s + i, c);
    lemma_occurs_right(p, t + s + i + c, l);
}

proof fn lemma_occurs_copy_in_body(p: Seq<char>, item: ItemModel, lead: Seq<char>)
    requires
        occurs_in(p, text_line("<text type=\"copy\">"@, item.text_copy, lead)),
    ensures
        occurs_in(p, item_body(item, lead)),
{
    let t = title_line(item.title, lead);
    let s = subtitle_lines(item.subtitle, subtitle_keys(), lead);
    let i = icon_line(item.icon, lead);
    let c = text_line("<text type=\"copy\">"@, item.text_copy, lead);
    let l = text_line("<text type=\"largetype\">"@, item.text_large_type, lead);
    lemma_occurs_left(p, c, t + s + i);
    lemma_occurs_right(p, t + s + i + c, l);
}

proof fn lemma_occurs_large_in_body(p: Seq<char>, item: ItemModel, lead: Seq<char>)
    requires
        occurs_in(p, text_line("<text type=\"largetype\">"@, item.text_large_type, lead)),
    ensures
        occurs_in(p, item_body(item, lead)),
{
    let t = title_line(item.title, lead);
    let s = subtitle_lines(item.subtitle, subtitle_keys(), lead);
    let i = icon_line(item.icon, lead);
    let c = text_line("<text type=\"copy\">"@, item.text_copy, lead);
    let l = text_line("<text type=\"largetype\">"@, item.text_large_type, lead);
    lemma_occurs_left(p, l, t + s + i + c);
}

/// The fragment of an item holds each of its subtitles, entity-encoded, in a
/// `<subtitle>` element whose `mod` attribute names the subtitle's modifier,
/// on a line indented one level deeper than the item.
pub proof fn law_item_xml_subtitle(item: ItemModel, indent: nat, key: Option<Modifier>)
    requires
        item.subtitle.contains_key(key),
    ensures
        occurs_in(
            indent_text(indent + 1) + match key {
                None => "<subtitle>"@,
                Some(m) => "<subtitle mod=\""@ + modifier_name(m) + "\">"@,
            } + encoded(item.subtitle[key]) + "</subtitle>\n"@,
            item_xml(item, indent),
        ),
{
    let lead = indent_text(indent + 1);
    let keys = subtitle_keys();
    let line = subtitle_line(item.subtitle, key, lead);
    let p = line;
    lemma_occurs_whole(line);
    match key {
        None => assert(keys[0] == key),
        Some(Modifier::CmdModifier) => assert(keys[1] == key),
        Some(Modifier::AltModifier) => assert(keys[2] == key),
        Some(Modifier::CtrlModifier) => assert(keys[3] == key),
        Some(Modifier::ShiftModifier) => assert(keys[4] == key),
        Some(Modifier::FnModifier) => assert(keys[5] == key),
    }
    lemma_subtitle_line_in_lines(item.subtitle, keys, key, lead);
    lemma_occurs_trans(p, line, subtitle_lines(item.subtitle, keys, lead));
    lemma_occurs_subtitles_in_body(p, item, lead);
    lemma_occurs_body_in_item(p, item, indent);
}

/// The fragment of an item holds its icon, entity-encoded, in an `<icon>`
/// element whose `type` attribute tells what kind of icon it is, on a line
/// indented one level deeper than the item.
pub proof fn law_item_xml_icon(item: ItemModel, indent: nat)
    ensures
        item.icon matches Some(IconModel::Path(v)) ==> occurs_in(
            indent_text(indent + 1) + "<icon>"@ + encoded(v) + "</icon>\n"@,
            item_xml(item, indent),
        ),
        item.icon matches Some(IconModel::File(v)) ==> occurs_in(
            indent_text(indent + 1) + "<icon type=\"fileicon\">"@ + encoded(v) + "</icon>\n"@,
            item_xml(item, indent),
        ),
        item.icon matches Some(IconModel::FileType(v)) ==> occurs_in(
            indent_text(indent + 1) + "<icon type=\"filetype\">"@ + encoded(v) + "</icon>\n"@,
            item_xml(item, indent),
        ),
{
    let lead = indent_text(indent + 1);
    if let Some(icon) = item.icon {
        let (o, v): (Seq<char>, Seq<char>) = match icon {
            IconModel::Path(v) => ("<icon>"@, v),
            IconModel::File(v) => ("<icon type=\"fileicon\">"@, v),
            IconModel::FileType(v) => ("<icon type=\"filetype\">"@, v),
        };
        let p = lead + o + encoded(v) + "</icon>\n"@;
        assert(p == icon_line(item.icon, lead));
        lemma_occurs_whole(p);
        lemma_occurs_icon_in_body(p, item, lead);
        lemma_occurs_body_in_item(p, item, indent);
    }
}

/// The fragment of an item holds its copy text and its large-type text,
/// entity-encoded, each in a `<text>` element of its own type, on a line
/// indented one level deeper than the item.
pub proof fn law_item_xml_texts(item: ItemModel, indent: nat)
    ensures
        item.text_copy matches Some(v) ==> occurs_in(
            indent_text(indent + 1) + "<text type=\"copy\">"@ + encoded(v) + "</text>\n"@,
            item_xml(item, indent),
        ),
        item.text_large_type matches Some(v) ==> occurs_in(
            indent_text(indent + 1) + "<text type=\"largetype\">"@ + encoded(v) + "</text>\n"@,
            item_xml(item, indent),
        ),
{
    let lead = indent_text(indent + 1);
    if let Some(v) = item.text_copy {
        let p = lead + "<text type=\"copy\">"@ + encoded(v) + "</text>\n"@;
        lemma_occurs_whole(p);
        lemma_occurs_copy_in_body(p, item, lead);
        lemma_occurs_body_in_item(p, item, indent);
    }
    if let Some(v) = item.text_large_type {
        let p = lead + "<text type=\"largetype\">"@ + encoded(v) + "</text>\n"@;
        lemma_occurs_whole(p);
        lemma_occurs_large_in_body(p, item, lead);
        lemma_occurs_body_in_item(p, item, indent);
    }
}

/// A fragment starts with its indentation and `<item`, and ends with its
/// indentation and `</item>` on a line of its own.
pub proof fn law_item_xml_frame(item: ItemModel, indent: nat)
    ensures
        holds_at(item_xml(item, indent), 0, indent_text(indent) + "<item"@),
        holds_at(
            item_xml(item, indent),
            item_xml(item, indent).len() - (indent_text(indent) + "</item>\n"@).len(),
            indent_text(indent) + "</item>\n"@,
        ),
{
    let x = item_xml(item, indent);
    let head = indent_text(indent) + "<item"@;
    let o = open_tag(item, indent);
    let rest = item_body(item, indent_text(indent + 1)) + indent_text(indent) + "</item>\n"@;
    assert(x =~= head + (o.subrange(head.len() as int, o.len() as int) + rest));
    assert(x.subrange(0, head.len() as int) =~= head);
    let tail = indent_text(indent) + "</item>\n"@;
    let front = o + item_body(item, indent_text(indent + 1));
    assert(x =~= front + tail);
    assert(x.subrange(x.len() - tail.len(), x.len() as int) =~= tail);
}

/// Indentation is four spaces a level.
pub proof fn law_indent_text(n: nat)
    ensures
        indent_text(n).len() == 4 * n,
        forall|i: int| 0 <= i < indent_text(n).len() ==> #[trigger] indent_text(n)[i] == ' ',
    decreases n,
{
    reveal_strlit("    ");
    if n > 0 {
        law_indent_text((n - 1) as nat);
        let p = indent_text((n - 1) as nat);
        assert forall|i: int| 0 <= i < indent_text(n).len() implies #[trigger] indent_text(n)[i]
            == ' ' by {
            if i < p.len() {
                assert(indent_text(n)[i] == p[i]);
            } else {
                assert(indent_text(n)[i] == "    "@[i - p.len()]);
            }
        }
    }
}

/// A run with no items has no fragments.
pub proof fn law_items_xml_empty(indent: nat)
    ensures
        items_xml(Seq::<ItemModel>::empty(), indent) == Seq::<char>::empty(),
{
}

/// Adding an item to a run adds exactly that item's fragment after the
/// fragments of the run, whatever the item holds.
pub proof fn law_items_xml_push(items: Seq<ItemModel>, item: ItemModel, indent: nat)
    ensures
        items_xml(items.push(item), indent) == items_xml(items, indent) + item_xml(item, indent),
{
    assert(items.push(item).drop_last() =~= items);
}

/// The document of items is the header, the fragment of each item at
/// indentation one in order, and the footer; with no items it is the header
/// and the footer alone.
pub proof fn law_document_push(items: Seq<ItemModel>, item: ItemModel)
    ensures
        document(Seq::<ItemModel>::empty()) == xml_header() + xml_footer(),
        document(items.push(item)) == xml_header() + items_xml(items, 1) + item_xml(item, 1)
            + xml_footer(),
{
    law_items_xml_push(items, item, 1);
    assert(xml_header() + Seq::<char>::empty() =~= xml_header());
    assert(xml_header() + (items_xml(items, 1) + item_xml(item, 1)) =~= xml_header() + items_xml(items, 1) + item_xml(item, 1));
}

pub(crate) fn write_header(w: &mut String)
    ensures
        final(w)@ == old(w)@ + xml_header(),
{
    w.append("<?xml version=\"1.0\" encoding=\"UTF-8\"?>\n<items>\n");
}

pub(crate) fn write_footer(w: &mut String)
    ensures
        final(w)@ == old(w)@ + xml_footer(),
{
    w.append("</items>\n");
}

fn write_indent(w: &mut String, indent: usize)
    ensures
        final(w)@ == old(w)@ + indent_text(indent as nat),
{
    let ghost start = w@;
    for i in 0..indent
        invariant
            w@ == start + indent_text(i as nat),
    {
        w.append("    ");
        assert(w@ =~= start + indent_text((i + 1) as nat));
    }
}

fn write_encoded(w: &mut String, s: &String)
    ensures
        final(w)@ == old(w)@ + encoded(s@),
{
    let e = encode_entities(s.as_str());
    w.append(e.as_str());
}

fn write_opt_attr(w: &mut String, prefix: &str, value: &Option<String>)
    ensures
        final(w)@ == old(w)@ + opt_attr(prefix@, value.deep_view()),
{
    match value {
        Some(v) => {
            let ghost start = w@;
            w.append(prefix);
            write_encoded(w, v);
            w.append("\"");
            assert(w@ =~= start + opt_attr(prefix@, value.deep_view()));
        },
        None => {
            assert(w@ =~= old(w)@ + opt_attr(prefix@, value.deep_view()));
        },
    }
}

proof fn lemma_add_assoc(a: Seq<char>, b: Seq<char>, c: Seq<char>)
    ensures
        (a + b) + c == a + (b + c),
{
    assert((a + b) + c =~= a + (b + c));
}

fn write_open_tag(w: &mut String, item: &Item, indent: usize)
    ensures
        final(w)@ == old(w)@ + open_tag(item@, indent as nat),
{
    let ghost start = w@;
    let ghost m = item@;
    write_indent(w, indent);
    w.append("<item");
    let ghost acc = indent_text(indent as nat) + "<item"@;
    proof { lemma_add_assoc(start, indent_text(indent as nat), "<item"@); }
    write_opt_attr(w, " uid=\"", &item.uid);
    proof { lemma_add_assoc(start, acc, opt_attr(" uid=\""@, m.uid)); }
    let ghost acc = acc + opt_attr(" uid=\""@, m.uid);
    write_opt_attr(w, " arg=\"", &item.arg);
    proof { lemma_add_assoc(start, acc, opt_attr(" arg=\""@, m.arg)); }
    let ghost acc = acc + opt_attr(" arg=\""@, m.arg);
    let ghost before = w@;
    match item.type_ {
        ItemType::DefaultItemType => {},
        ItemType::FileItemType => {
            w.append(" type=\"file\"");
        },
        ItemType::FileSkipCheckItemType => {
            w.append(" type=\"file:skipcheck\"");
        },
    }
    assert(w@ =~= before + type_attr(m.type_));
    proof { lemma_add_assoc(start, acc, type_attr(m.type_)); }
    let ghost acc = acc + type_attr(m.type_);
    let ghost before = w@;
    if !item.valid {
        w.append(" valid=\"no\"");
    }
    assert(w@ =~= before + valid_attr(m.valid));
    proof { lemma_add_assoc(start, acc, valid_attr(m.valid)); }
    let ghost acc = acc + valid_attr(m.valid);
    write_opt_attr(w, " autocomplete=\"", &item.autocomplete);
    proof { lemma_add_assoc(start, acc, opt_attr(" autocomplete=\""@, m.autocomplete)); }
    let ghost acc = acc + opt_attr(" autocomplete=\""@, m.autocomplete);
    w.append(">\n");
    proof { lemma_add_assoc(start, acc, ">\n"@); }
    assert(acc + ">\n"@ == open_tag(m, indent as nat));
}

fn write_subtitle_line(w: &mut String, item: &Item, key: Option<Modifier>, lead: &str)
    ensures
        final(w)@ == old(w)@ + subtitle_line(item@.subtitle, key, lead@),
{
    let ghost start = w@;
    match item.subtitle.get(key) {
        Some(text) => {
            w.append(lead);
            match key {
                Some(m) => {
                    w.append("<subtitle mod=\"");
                    match m {
                        Modifier::CmdModifier => w.append("cmd"),
                        Modifier::AltModifier => w.append("alt"),
                        Modifier::CtrlModifier => w.append("ctrl"),
                        Modifier::ShiftModifier => w.append("shift"),
                        Modifier::FnModifier => w.append("fn"),
                    }
                    w.append("\">");
                },
                None => w.append("<subtitle>"),
            }
            write_encoded(w, text);
            w.append("</subtitle>\n");
        },
        None => {},
    }
    assert(w@ =~= start + subtitle_line(item@.subtitle, key, lead@));
}

proof fn lemma_subtitle_lines_step(
    subtitles: Map<Option<Modifier>, Seq<char>>,
    keys: Seq<Option<Modifier>>,
    k: int,
    lead: Seq<char>,
)
    requires
        0 <= k < keys.len(),
    ensures
        subtitle_lines(subtitles, keys.take(k + 1), lead) == subtitle_lines(subtitles, keys.take(k), lead)
            + subtitle_line(subtitles, keys[k], lead),
{
    assert(keys.take(k + 1).drop_last() =~= keys.take(k));
}

fn write_subtitles(w: &mut String, item: &Item, lead: &str)
    ensures
        final(w)@ == old(w)@ + subtitle_lines(item@.subtitle, subtitle_keys(), lead@),
{
    let ghost start = w@;
    let keys = [
        None,
        Some(Modifier::CmdModifier),
        Some(Modifier::AltModifier),
        Some(Modifier::CtrlModifier),
        Some(Modifier::ShiftModifier),
        Some(Modifier::FnModifier),
    ];
    assert(keys@ =~= subtitle_keys());
    assert(subtitle_lines(item@.subtitle, keys@.take(0), lead@) =~= seq![]);
    for i in 0..6
        invariant
            keys@ == subtitle_keys(),
            w@ == start + subtitle_lines(item@.subtitle, keys@.take(i as int), lead@),
    {
        write_subtitle_line(w, item, keys[i], lead);
        proof {
            lemma_subtitle_lines_step(item@.subtitle, keys@, i as int, lead@);
        }
        assert(w@ =~= start + subtitle_lines(item@.subtitle, keys@.take(i + 1), lead@));
    }
    assert(keys@.take(6) =~= keys@);
}

fn write_icon(w: &mut String, item: &Item, lead: &str)
    ensures
        final(w)@ == old(w)@ + icon_line(item@.icon, lead@),
{
    let ghost start = w@;
    match &item.icon {
        Some(Icon::PathIcon(s)) => {
            w.append(lead);
            w.append("<icon>");
            write_encoded(w, s);
            w.append("</icon>\n");
        },
        Some(Icon::FileIcon(s)) => {
            w.append(lead);
            w.append("<icon type=\"fileicon\">");
            write_encoded(w, s);
            w.append("</icon>\n");
        },
        Some(Icon::FileTypeIcon(s)) => {
            w.append(lead);
            w.append("<icon type=\"filetype\">");
            write_encoded(w, s);
            w.append("</icon>\n");
        },
        None => {},
    }
    assert(w@ =~= start + icon_line(item@.icon, lead@));
}

fn write_text_line(w: &mut String, open: &str, text: &Option<String>, lead: &str)
    ensures
        final(w)@ == old(w)@ + text_line(open@, text.deep_view(), lead@),
{
    let ghost start = w@;
    match text {
        Some(t) => {
            w.append(lead);
            w.append(open);
            write_encoded(w, t);
            w.append("</text>\n");
        },
        None => {},
    }
    assert(w@ =~= start + text_line(open@, text.deep_view(), lead@));
}

/// Writes the lines inside an `<item>` element, each led by `lead`.
fn write_body(w: &mut String, item: &Item, lead: &str)
    ensures
        final(w)@ == old(w)@ + item_body(item@, lead@),
{
    let ghost start = w@;
    w.append(lead);
    w.append("<title>");
    write_encoded(w, &item.title);
    w.append("</title>\n");
    assert(w@ =~= start + title_line(item@.title, lead@));
    write_subtitles(w, item, lead);
    write_icon(w, item, lead);
    write_text_line(w, "<text type=\"copy\">", &item.text_copy, lead);
    write_text_line(w, "<text type=\"largetype\">", &item.text_large_type, lead);
    assert(w@ =~= start + item_body(item@, lead@));
}

impl Item {
    /// Writes the XML fragment representing the `Item` to `w`, with its
    /// `<item>` tags at indentation `indent` and its inner lines one level
    /// deeper.
    ///
    /// The subtitles are written in a fixed order: the default subtitle
    /// first, then those of the Cmd, Alt, Ctrl, Shift and Fn modifiers.
    pub fn write_xml(&self, w: &mut String, indent: usize)
        ensures
            final(w)@ == old(w)@ + item_xml(self@, indent as nat),
    {
        let ghost start = w@;
        let ghost n = indent as nat;
        write_open_tag(w, self, indent);
        // the inner lines stand one level deeper: `indent` levels and four
        // more spaces, built without computing `indent + 1`
        let mut lead = String::new();
        write_indent(&mut lead, indent);
        lead.append("    ");
        assert(lead@ =~= indent_text(n + 1));
        write_body(w, self, lead.as_str());
        write_indent(w, indent);
        w.append("</item>\n");
        assert(w@ =~= start + item_xml(self@, n));
    }
}

/// Writes the complete XML document representing `items` to `w`: the header,
/// the fragment of each item in order, and the footer.
pub fn write_items(w: &mut String, items: &[Item])
    ensures
        final(w)@ == old(w)@ + document(item_models(items@)),
{
    let ghost start = w@;
    write_header(w);
    let ghost models = item_models(items@);
    for i in 0..items.len()
        invariant
            models == item_models(items@),
            w@ == start + xml_header() + items_xml(models.take(i as int), 1),
    {
        items[i].write_xml(w, 1);
        proof {
            assert(models.take(i + 1).drop_last() =~= models.take(i as int));
            assert(models[i as int] == items@[i as int]@);
            let a = start + xml_header();
            let b = items_xml(models.take(i as int), 1);
            let c = item_xml(models[i as int], 1);
            assert(items_xml(models.take(i + 1), 1) == b + c);
            assert(w@ == (a + b) + c);
            assert((a + b) + c =~= a + (b + c));
        }
    }
    assert(models.take(items.len() as int) =~= models);
    write_footer(w);
    assert(w@ =~= start + document(models));
}

} // verus!
