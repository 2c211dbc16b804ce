use avt::line::Line;
use avt::pen::Pen;
use avt::util::{TextCollector, TextUnwrapper};
use avt::vt::Vt;

#[test]
fn text_unwrapper() {
    let mut tu = TextUnwrapper::new();
    let pen = Pen::default();

    let mut line = Line::blank(5, pen);
    line.print(0, 'a', pen);
    line.print(4, 'b', pen);
    line.wrapped = false;

    let text = tu.push(&line);

    assert!(matches!(text, Some(ref x) if x == "a   b"));

    let mut line = Line::blank(5, pen);
    line.print(0, 'c', pen);
    line.print(4, 'd', pen);
    line.wrapped = true;

    let text = tu.push(&line);

    assert!(text.is_none());

    let mut line = Line::blank(5, pen);
    line.print(0, 'e', pen);
    line.print(4, 'f', pen);
    line.wrapped = true;

    let text = tu.push(&line);

    assert!(text.is_none());

    let mut line = Line::blank(5, pen);
    line.print(0, 'g', pen);
    line.print(1, 'h', pen);
    line.wrapped = false;

    let text = tu.push(&line);

    assert!(matches!(text, Some(ref x) if x == "c   de   fgh"));

    let mut line = Line::blank(5, pen);
    line.print(0, 'i', pen);
    line.wrapped = true;

    let text = tu.push(&line);

    assert!(text.is_none());

    let text = tu.flush();

    assert!(matches!(text, Some(ref x) if x == "i    "));
}

#[test]
fn text_collector_no_scrollback() {
    let vt = Vt::builder().size(10, 2).scrollback_limit(0).build();
    let mut tc = TextCollector::new(vt);

    let lines: Vec<String> = tc.feed_str("a\r\nb\r\nc\r\nd\r\n");

    assert_eq!(lines, ["a", "b", "c"]);

    let lines: Vec<String> = tc.flush();

    assert_eq!(lines, ["d"]);
}

#[test]
fn text_collector_unlimited_scrollback() {
    let vt = Vt::builder().size(10, 2).build();
    let mut tc = TextCollector::new(vt);

    let lines: Vec<String> = tc.feed_str("a\r\nb\r\nc\r\nd\r\n");

    assert!(lines.is_empty());

    let lines: Vec<String> = tc.flush();

    assert_eq!(lines, ["a", "b", "c", "d"]);
}

#[test]
fn text_collector_wrapping() {
    let vt = Vt::builder().size(10, 2).scrollback_limit(0).build();
    let mut tc = TextCollector::new(vt);

    let lines: Vec<String> = tc.feed_str("abcdefghijklmno\r\n");

    assert!(lines.is_empty());

    let lines: Vec<String> = tc.flush();

    assert_eq!(lines, vec!["abcdefghijklmno"]);
}

#[test]
fn text_collector_resize_is_ignored() {
    let vt = Vt::builder().size(10, 2).scrollback_limit(0).build();
    let mut tc = TextCollector::new(vt);

    assert!(tc.resize(20, 5).is_empty());
    assert_eq!(tc.vt.size(), (10, 2));
}

#[test]
fn text_unwrapper_flush_empty() {
    let tu = TextUnwrapper::new();

    assert!(tu.flush().is_none());
}
