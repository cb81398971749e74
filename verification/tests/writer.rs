use alfred::item::Item;
use alfred::writer::XMLWriter;

#[test]
fn writer_header_and_footer() {
    assert_eq!(XMLWriter::<String>::header(), "<?xml version=\"1.0\" encoding=\"UTF-8\"?>\n<items>\n");
    let w: XMLWriter<String> = XMLWriter::new(Ok(())).unwrap();
    assert_eq!(w.footer_on_drop().as_deref(), Some("</items>\n"));
    assert_eq!(w.close(), Ok("</items>\n".to_string()));
}

#[test]
fn writer_new_fails_with_header_error() {
    let r: Result<XMLWriter<String>, String> = XMLWriter::new(Err("disk full".to_string()));
    assert_eq!(r.err(), Some("disk full".to_string()));
}

#[test]
fn writer_write_item_gives_fragment() {
    let w: XMLWriter<String> = XMLWriter::new(Ok(())).unwrap();
    assert_eq!(
        w.write_item(&Item::new("a")),
        Ok("    <item>\n        <title>a</title>\n    </item>\n".to_string())
    );
}

#[test]
fn writer_error_is_sticky() {
    let mut w: XMLWriter<String> = XMLWriter::new(Ok(())).unwrap();
    assert_eq!(w.record(Ok(())), Ok(()));
    assert_eq!(w.record(Err("broken pipe".to_string())), Err("broken pipe".to_string()));
    // every later write does nothing and returns the same error
    assert_eq!(w.write_item(&Item::new("b")), Err("broken pipe".to_string()));
    assert_eq!(w.write_item(&Item::new("c")), Err("broken pipe".to_string()));
    assert_eq!(w.footer_on_drop(), None);
    assert_eq!(w.close(), Err("broken pipe".to_string()));
}

#[test]
fn writer_keeps_first_error() {
    let mut w: XMLWriter<String> = XMLWriter::new(Ok(())).unwrap();
    assert_eq!(w.record(Err("first".to_string())), Err("first".to_string()));
    assert_eq!(w.record(Ok(())), Ok(()));
    assert_eq!(w.record(Err("second".to_string())), Err("second".to_string()));
    assert_eq!(w.write_item(&Item::new("x")), Err("first".to_string()));
    assert_eq!(w.close(), Err("first".to_string()));
}
