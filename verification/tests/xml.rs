use alfred::builder::ItemBuilder;
use alfred::escape::{encode_entities, Encoded};
use alfred::item::{Item, ItemType, Modifier};
use alfred::xml::write_items;

fn xml_of(item: &Item, indent: usize) -> String {
    let mut s = String::new();
    item.write_xml(&mut s, indent);
    s
}

#[test]
fn encode_entities_leaves_plain_text() {
    assert_eq!(encode_entities("Hello, world! ünïcödé").as_str(), "Hello, world! ünïcödé");
    assert_eq!(encode_entities("").as_str(), "");
}

#[test]
fn encode_entities_escapes_markup() {
    assert_eq!(encode_entities("<a href=\"x\">&</a>").as_str(), "&lt;a href=&quot;x&quot;&gt;&amp;&lt;/a&gt;");
    assert_eq!(encode_entities("'").as_str(), "'");
}

#[test]
fn encode_entities_replaces_invalid_chars() {
    assert_eq!(encode_entities("a\u{0}b\u{8}c").as_str(), "a\u{FFFD}b\u{FFFD}c");
    assert_eq!(encode_entities("\u{B}\u{C}\u{E}\u{1F}").as_str(), "\u{FFFD}\u{FFFD}\u{FFFD}\u{FFFD}");
    assert_eq!(encode_entities("\u{FFFE}\u{FFFF}").as_str(), "\u{FFFD}\u{FFFD}");
    // tab, newline and carriage return are allowed in XML
    assert_eq!(encode_entities("\t\n\r").as_str(), "\t\n\r");
    assert_eq!(encode_entities("\u{FFFD}").as_str(), "\u{FFFD}");
}

#[test]
fn encode_entities_composes() {
    let a = "x<y";
    let b = "&\u{1}z";
    assert_eq!(
        encode_entities(&format!("{}{}", a, b)).as_str(),
        format!("{}{}", encode_entities(a).as_str(), encode_entities(b).as_str())
    );
}

#[test]
fn write_xml_minimal_item() {
    let item = Item::new("Item 1");
    assert_eq!(xml_of(&item, 1), "    <item>\n        <title>Item 1</title>\n    </item>\n");
    assert_eq!(xml_of(&item, 0), "<item>\n    <title>Item 1</title>\n</item>\n");
}

#[test]
fn write_xml_readme_item() {
    let item = ItemBuilder::new("Item 3")
        .arg("Argument")
        .subtitle("Subtitle")
        .icon_filetype("public.folder")
        .into_item();
    assert_eq!(
        xml_of(&item, 1),
        "    <item arg=\"Argument\">\n        <title>Item 3</title>\n        <subtitle>Subtitle</subtitle>\n        <icon type=\"filetype\">public.folder</icon>\n    </item>\n"
    );
}

#[test]
fn write_xml_all_fields() {
    let item = ItemBuilder::new("T<1>")
        .uid("u\"1")
        .arg("a&b")
        .type_(ItemType::FileSkipCheckItemType)
        .invalid()
        .autocomplete("auto")
        .subtitle_mod(Modifier::FnModifier, "fn sub")
        .subtitle_mod(Modifier::CmdModifier, "cmd sub")
        .subtitle("def")
        .icon_file("/tmp")
        .set_text_copy("copy")
        .set_text_large_type("large")
        .into_item();
    let got = xml_of(&item, 2);
    assert_eq!(
        got,
        "        <item uid=\"u&quot;1\" arg=\"a&amp;b\" type=\"file:skipcheck\" valid=\"no\" autocomplete=\"auto\">\n\
         \x20           <title>T&lt;1&gt;</title>\n\
         \x20           <subtitle>def</subtitle>\n\
         \x20           <subtitle mod=\"cmd\">cmd sub</subtitle>\n\
         \x20           <subtitle mod=\"fn\">fn sub</subtitle>\n\
         \x20           <icon type=\"fileicon\">/tmp</icon>\n\
         \x20           <text type=\"copy\">copy</text>\n\
         \x20           <text type=\"largetype\">large</text>\n\
         \x20       </item>\n"
    );
}

#[test]
fn write_xml_modifier_names_and_types() {
    let item = ItemBuilder::new("m")
        .type_(ItemType::FileItemType)
        .subtitle_mod(Modifier::AltModifier, "1")
        .subtitle_mod(Modifier::CtrlModifier, "2")
        .subtitle_mod(Modifier::ShiftModifier, "3")
        .icon_path("i.png")
        .into_item();
    assert_eq!(
        xml_of(&item, 0),
        "<item type=\"file\">\n    <title>m</title>\n    <subtitle mod=\"alt\">1</subtitle>\n    <subtitle mod=\"ctrl\">2</subtitle>\n    <subtitle mod=\"shift\">3</subtitle>\n    <icon>i.png</icon>\n</item>\n"
    );
}

#[test]
fn write_xml_appends_to_buffer() {
    let mut s = String::from("prefix\n");
    Item::new("x").write_xml(&mut s, 0);
    assert_eq!(s, "prefix\n<item>\n    <title>x</title>\n</item>\n");
}

#[test]
fn write_items_document() {
    let items = vec![
        Item::new("Item 1"),
        ItemBuilder::new("Item 2").subtitle("Subtitle").into_item(),
    ];
    let mut s = String::new();
    write_items(&mut s, &items);
    assert_eq!(
        s,
        "<?xml version=\"1.0\" encoding=\"UTF-8\"?>\n<items>\n    <item>\n        <title>Item 1</title>\n    </item>\n    <item>\n        <title>Item 2</title>\n        <subtitle>Subtitle</subtitle>\n    </item>\n</items>\n"
    );
}

#[test]
fn write_items_empty_document() {
    let mut s = String::new();
    write_items(&mut s, &[]);
    assert_eq!(s, "<?xml version=\"1.0\" encoding=\"UTF-8\"?>\n<items>\n</items>\n");
}

#[test]
fn encoded_text_is_safe() {
    let out = encode_entities("<<\">>&\u{0}\u{1F}\u{FFFF}x").as_str().to_string();
    assert!(!out.contains('<') && !out.contains('>') && !out.contains('"'));
    assert!(!out.chars().any(|c| (c as u32) <= 0x08 || c == '\u{FFFF}' || c == '\u{1F}'));
    assert_eq!(out, "&lt;&lt;&quot;&gt;&gt;&amp;\u{FFFD}\u{FFFD}\u{FFFD}x");
}

#[test]
fn document_is_header_fragments_footer() {
    let a = ItemBuilder::new("A").uid("1").into_item();
    let b = ItemBuilder::new("B").invalid().into_item();
    let mut doc = String::new();
    write_items(&mut doc, &[a.clone(), b.clone()]);
    let expected = format!(
        "<?xml version=\"1.0\" encoding=\"UTF-8\"?>\n<items>\n{}{}</items>\n",
        xml_of(&a, 1),
        xml_of(&b, 1)
    );
    assert_eq!(doc, expected);
}

#[test]
fn cleared_subtitles_write_no_lines() {
    let item = ItemBuilder::new("t")
        .subtitle("s")
        .subtitle_mod(Modifier::CmdModifier, "c")
        .clear_subtitle()
        .into_item();
    assert_eq!(xml_of(&item, 0), "<item>\n    <title>t</title>\n</item>\n");
}

#[test]
fn encode_entities_borrows_unchanged_text() {
    let s = "plain text";
    match encode_entities(s) {
        Encoded::Borrowed(p) => assert!(std::ptr::eq(p, s)),
        Encoded::Owned(_) => panic!("plain text was copied"),
    }
    assert!(matches!(encode_entities("a<b"), Encoded::Owned(_)));
    assert!(matches!(encode_entities("\u{FFFE}"), Encoded::Owned(_)));
}

fn unescape(t: &str) -> String {
    let mut out = String::new();
    let mut rest = t;
    while !rest.is_empty() {
        let mut matched = false;
        for (ent, c) in [("&lt;", '<'), ("&gt;", '>'), ("&quot;", '"'), ("&amp;", '&')] {
            if rest.starts_with(ent) {
                out.push(c);
                rest = &rest[ent.len()..];
                matched = true;
                break;
            }
        }
        if !matched {
            let c = rest.chars().next().unwrap();
            out.push(c);
            rest = &rest[c.len_utf8()..];
        }
    }
    out
}

#[test]
fn unescaping_encoded_text_gives_it_back() {
    for s in ["", "plain", "<a href=\"x&y\">&amp;</a>", "&lt;&&;;\"\"", "tab\tü<>"] {
        assert_eq!(unescape(encode_entities(s).as_str()), s);
    }
}

#[test]
fn every_ampersand_starts_an_entity() {
    let out = encode_entities("&&a&lt<\">&").as_str().to_string();
    for (i, c) in out.char_indices() {
        if c == '&' {
            let rest = &out[i..];
            assert!(["&lt;", "&gt;", "&quot;", "&amp;"].iter().any(|e| rest.starts_with(e)));
        }
    }
}

#[test]
fn encoded_values_compare_by_text() {
    assert_eq!(Encoded::Borrowed("\u{FFFD}"), Encoded::Owned("\u{FFFD}".to_string()));
    assert_ne!(Encoded::Borrowed("a"), Encoded::Owned("b".to_string()));
    assert_eq!(encode_entities("\u{0}"), encode_entities("\u{FFFD}"));
}
