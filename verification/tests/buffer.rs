use avt::buffer::Buffer;
use avt::cell::{Cell, Occupancy};
use avt::line::Line;
use avt::pen::Pen;

type VisualPosition = (usize, usize);

fn line(line: &Line) -> String {
    let mut t = line.text();

    if line.wrapped {
        t.push('⏎');
    }

    t
}

fn resize_buffer(
    scrollback_size: usize,
    content: Vec<(&str, bool)>,
    new_cols: usize,
    new_rows: usize,
    mut cursor: VisualPosition,
) -> (Vec<String>, VisualPosition) {
    let mut buffer = buffer(&content, None, scrollback_size);
    cursor = buffer.resize(new_cols, new_rows, cursor);

    let view = buffer
        .view()
        .iter()
        .map(|line| line.text())
        .collect::<Vec<_>>();

    (view, cursor)
}

fn buffer(
    content: &[(&str, bool)],
    scrollback_limit: Option<usize>,
    scrollback_size: usize,
) -> Buffer {
    let cols = content[0].0.len();
    let rows = content.len();
    let mut buffer = Buffer::new(cols, rows, scrollback_limit, None);

    if !matches!(scrollback_limit, Some(0)) {
        buffer.add_scrollback(scrollback_size);
    }

    for (row, (line, wrapped)) in content.iter().enumerate() {
        for (col, ch) in line.chars().enumerate() {
            buffer.print((col, row), ch, Pen::default());
        }

        if *wrapped {
            buffer.wrap(row);
        }
    }

    buffer
}

#[test]
fn text() {
    let mut buffer = Buffer::new(10, 5, None, None);
    let cell = 'x';

    assert_eq!(buffer.text(), vec!["", "", "", "", ""]);

    buffer.print((0, 0), cell, Pen::default());
    buffer.print((1, 1), cell, Pen::default());
    buffer.print((2, 2), cell, Pen::default());
    buffer.print((3, 3), cell, Pen::default());
    buffer.print((4, 4), cell, Pen::default());
    assert_eq!(buffer.text(), vec!["x", " x", "  x", "   x", "    x"]);

    buffer.wrap(0);
    buffer.wrap(3);
    assert_eq!(
        buffer.text(),
        vec!["x          x", "  x", "   x          x"]
    );
}

#[test]
fn scroll_up() {
    let content = vec![
        ("aaaa", true),
        ("aaaa", true),
        ("aa  ", false),
        ("bb", false),
        ("cccc", true),
        ("cccc", true),
        ("cc", false),
    ];

    let pen = Pen::default();

    // whole view

    let mut buf = buffer(&content, None, 0);

    buf.scroll_up(0..content.len(), 1, &pen);

    assert_eq!(line(&buf.view()[0]), "aaaa⏎");
    assert_eq!(line(&buf.view()[1]), "aa  ");
    assert_eq!(line(&buf.view()[2]), "bb  ");
    assert_eq!(line(&buf.view()[3]), "cccc⏎");
    assert_eq!(line(&buf.view()[4]), "cccc⏎");
    assert_eq!(line(&buf.view()[5]), "cc  ");
    assert_eq!(line(&buf.view()[6]), "    ");
    assert_eq!(buf.text().join("\n"), "aaaaaaaaaa\nbb\ncccccccccc\n");
    assert_eq!(buf.lines.len(), 8);
    assert!(buf.lines[0].wrapped);

    // top of the view

    let mut buf = buffer(&content, None, 0);

    buf.scroll_up(0..5, 1, &pen);

    assert_eq!(line(&buf.view()[0]), "aaaa⏎");
    assert_eq!(line(&buf.view()[1]), "aa  ");
    assert_eq!(line(&buf.view()[2]), "bb  ");
    assert_eq!(line(&buf.view()[3]), "cccc");
    assert_eq!(line(&buf.view()[4]), "    ");
    assert_eq!(line(&buf.view()[5]), "cccc⏎");
    assert_eq!(line(&buf.view()[6]), "cc  ");
    assert_eq!(buf.text().join("\n"), "aaaaaaaaaa\nbb\ncccc\n\ncccccc");
    assert_eq!(buf.lines.len(), 8);
    assert!(buf.lines[0].wrapped);

    // bottom of the view

    let mut buf = buffer(&content, None, 0);

    buf.scroll_up(1..content.len(), 1, &pen);

    assert_eq!(line(&buf.view()[0]), "aaaa");
    assert_eq!(line(&buf.view()[1]), "aa  ");
    assert_eq!(line(&buf.view()[2]), "bb  ");
    assert_eq!(line(&buf.view()[3]), "cccc⏎");
    assert_eq!(line(&buf.view()[4]), "cccc⏎");
    assert_eq!(line(&buf.view()[5]), "cc  ");
    assert_eq!(line(&buf.view()[6]), "    ");
    assert_eq!(buf.text().join("\n"), "aaaa\naa\nbb\ncccccccccc\n");
    assert_eq!(buf.lines.len(), 7);

    // no scrollback limit

    let mut buf = buffer(&content, None, 0);

    buf.scroll_up(0..content.len(), 5, &pen);

    assert_eq!(buf.lines.len(), 12);

    // scrollback limit of 0

    let mut buf = buffer(&content, Some(0), 0);

    buf.scroll_up(0..content.len(), 5, &pen);

    assert_eq!(buf.lines.len(), 12);

    buf.gc();

    assert_eq!(buf.lines.len(), 7);

    // scrollback limit of 3

    let mut buf = buffer(&content, Some(3), 0);

    buf.scroll_up(0..content.len(), 5, &pen);

    assert_eq!(buf.lines.len(), 12);

    buf.gc();

    assert_eq!(buf.lines.len(), 10);
}



#[test]
fn buffer_resize_shorter() {
    let content = vec![
        ("aa  ", false),
        ("bbbb", true),
        ("bbbb", true),
        ("bb", false),
        ("cc", false),
    ];

    // cursor at the top

    for scrollback in [0, 20] {
        let (view, cursor) = resize_buffer(scrollback, content.clone(), 4, 3, (0, 0));

        assert_eq!(cursor, (0, 0));
        assert_eq!(view, vec!["aa  ", "bbbb", "bbbb"]);
    }

    // cursor at the bottom

    for scrollback in [0, 20] {
        let (view, cursor) = resize_buffer(scrollback, content.clone(), 4, 3, (0, 4));

        assert_eq!(cursor, (0, 2));
        assert_eq!(view, vec!["bbbb", "bb  ", "cc  "]);
    }

    // cursor in the middle

    for scrollback in [0, 20] {
        let (view, cursor) = resize_buffer(scrollback, content.clone(), 4, 2, (0, 3));

        assert_eq!(cursor, (0, 1));
        assert_eq!(view, vec!["bbbb", "bb  "]);
    }
}

#[test]
fn buffer_resize_taller() {
    let content = vec![
        ("aa  ", false),
        ("bbbb", true),
        ("bbbb", true),
        ("bb", false),
        ("cc", false),
    ];

    // cursor at the top, no scrollback

    let (view, cursor) = resize_buffer(0, content.clone(), 4, 7, (0, 0));

    assert_eq!(cursor, (0, 0));
    assert_eq!(
        view,
        vec!["aa  ", "bbbb", "bbbb", "bb  ", "cc  ", "    ", "    "]
    );

    // cursor at the top, with scrollback

    let (view, cursor) = resize_buffer(20, content.clone(), 4, 7, (0, 0));

    assert_eq!(cursor, (0, 2));
    assert_eq!(
        view,
        vec!["ssss", "ssss", "aa  ", "bbbb", "bbbb", "bb  ", "cc  "]
    );

    // cursor at the bottom, no scrollback

    let (view, cursor) = resize_buffer(0, content.clone(), 4, 7, (0, 4));

    assert_eq!(cursor, (0, 4));
    assert_eq!(
        view,
        vec!["aa  ", "bbbb", "bbbb", "bb  ", "cc  ", "    ", "    "]
    );

    // cursor at the bottom, with scrollback

    let (view, cursor) = resize_buffer(20, content.clone(), 4, 7, (0, 4));

    assert_eq!(cursor, (0, 6));
    assert_eq!(
        view,
        vec!["ssss", "ssss", "aa  ", "bbbb", "bbbb", "bb  ", "cc  "]
    );

    // cursor in the middle, no scrollback

    let (view, cursor) = resize_buffer(0, content.clone(), 4, 7, (0, 3));

    assert_eq!(cursor, (0, 3));
    assert_eq!(
        view,
        vec!["aa  ", "bbbb", "bbbb", "bb  ", "cc  ", "    ", "    "]
    );

    // cursor in the middle, with scrollback

    let (view, cursor) = resize_buffer(20, content.clone(), 4, 7, (0, 3));

    assert_eq!(cursor, (0, 5));
    assert_eq!(
        view,
        vec!["ssss", "ssss", "aa  ", "bbbb", "bbbb", "bb  ", "cc  "]
    );

    // cursor below last row

    for scrollback in [0, 20] {
        let (_, cursor) = resize_buffer(scrollback, content.clone(), 4, 8, (2, 6));

        assert_eq!(cursor, (2, 6));
    }
}

#[test]
fn buffer_resize_wider() {
    let content = vec![
        ("aa  ", false),
        ("bbbb", true),
        ("bbbb", true),
        ("bb", false),
        ("cc", false),
    ];

    // cursor at the top, no scrollback

    let (view, cursor) = resize_buffer(0, content.clone(), 6, 5, (0, 0));

    assert_eq!(cursor, (0, 0));
    assert_eq!(view, vec!["aa    ", "bbbbbb", "bbbb  ", "cc    ", "      "]);

    // cursor at the top, with scrollback

    let (view, cursor) = resize_buffer(20, content.clone(), 6, 5, (0, 0));

    assert_eq!(cursor, (0, 1));
    assert_eq!(view, vec!["ssss  ", "aa    ", "bbbbbb", "bbbb  ", "cc    "]);

    // cursor at the bottom, no scrollback

    let (view, cursor) = resize_buffer(0, content.clone(), 6, 5, (0, 4));

    assert_eq!(cursor, (0, 3));
    assert_eq!(view, vec!["aa    ", "bbbbbb", "bbbb  ", "cc    ", "      "]);

    // cursor at the bottom, with scrollback

    let (view, cursor) = resize_buffer(20, content.clone(), 6, 5, (0, 4));

    assert_eq!(cursor, (0, 4));
    assert_eq!(view, vec!["ssss  ", "aa    ", "bbbbbb", "bbbb  ", "cc    "]);

    // cursor in the middle, no scrollback

    let (view, cursor) = resize_buffer(0, content.clone(), 6, 5, (1, 2));

    assert_eq!(cursor, (5, 1));
    assert_eq!(view, vec!["aa    ", "bbbbbb", "bbbb  ", "cc    ", "      "]);

    // cursor in the middle, with scrollback

    let (view, cursor) = resize_buffer(20, content.clone(), 6, 5, (1, 2));

    assert_eq!(cursor, (5, 2));
    assert_eq!(view, vec!["ssss  ", "aa    ", "bbbbbb", "bbbb  ", "cc    "]);
}

#[test]
fn buffer_resize_narrower() {
    let content = vec![
        ("aa  ", false),
        ("bbbb", true),
        ("bbbb", true),
        ("bb", false),
        ("cc", false),
    ];

    // cursor at the top, no scrollback

    let (view, cursor) = resize_buffer(0, content.clone(), 2, 5, (0, 0));

    assert_eq!(cursor, (0, 0));
    assert_eq!(view, vec!["aa", "bb", "bb", "bb", "bb"]);

    // cursor at the top, with scrollback

    let (view, cursor) = resize_buffer(20, content.clone(), 2, 5, (0, 0));

    assert_eq!(cursor, (0, 0));
    assert_eq!(view, vec!["aa", "bb", "bb", "bb", "bb"]);

    // cursor at the bottom, no scrollback

    let (view, cursor) = resize_buffer(0, content.clone(), 2, 5, (0, 4));

    assert_eq!(cursor, (0, 4));
    assert_eq!(view, vec!["bb", "bb", "bb", "bb", "cc"]);

    // cursor at the bottom, with scrollback

    let (view, cursor) = resize_buffer(20, content.clone(), 2, 5, (0, 4));

    assert_eq!(cursor, (0, 4));
    assert_eq!(view, vec!["bb", "bb", "bb", "bb", "cc"]);

    // cursor in the middle, no scrollback

    let (view, cursor) = resize_buffer(0, content.clone(), 2, 5, (1, 2));

    assert_eq!(cursor, (1, 1));
    assert_eq!(view, vec!["bb", "bb", "bb", "bb", "cc"]);

    // cursor in the middle, with scrollback

    let (view, cursor) = resize_buffer(20, content.clone(), 2, 5, (1, 2));

    assert_eq!(cursor, (1, 1));
    assert_eq!(view, vec!["bb", "bb", "bb", "bb", "cc"]);

    // cursor in the middle, no scrollback, last lines wrapped

    let (view, cursor) = resize_buffer(
        0,
        vec![
            ("aa  ", false),
            ("bbbb", true),
            ("bbb ", false),
            ("cccc", true),
            ("cc", false),
        ],
        2,
        5,
        (1, 2),
    );

    assert_eq!(cursor, (1, 0));
    assert_eq!(view, vec!["bb", "b ", "cc", "cc", "cc"]);
}

/// For each scrollback size and each pattern of wrapped rows, every position
/// of the view goes to the logical lines and back unchanged.
#[test]
fn cursor_translation() {
    let cols = 10;
    let rows = 5;

    for scrollback_size in [0, 1, 7, 19] {
        for pattern in 0..32u32 {
            let mut buffer = Buffer::new(cols, rows, None, None);
            buffer.add_scrollback(scrollback_size);

            for i in 0..rows {
                if pattern & (1 << i) != 0 {
                    buffer.wrap(i);
                }
            }

            for col in 0..cols {
                for row in 0..rows {
                    let log_pos = buffer.logical_position((col, row), cols, rows);
                    let offset = buffer.lines.len() - rows;

                    assert_eq!(buffer.relative_position(log_pos, cols), (col, row + offset));
                }
            }
        }
    }
}

#[test]
fn scroll_down_region() {
    let content = vec![("aaaa", true), ("bbbb", false), ("cccc", true), ("dd  ", false)];
    let mut buf = buffer(&content, None, 0);

    buf.scroll_down(1..3, 1, &Pen::default());

    assert_eq!(line(&buf.view()[0]), "aaaa");
    assert_eq!(line(&buf.view()[1]), "    ");
    assert_eq!(line(&buf.view()[2]), "bbbb");
    assert_eq!(line(&buf.view()[3]), "dd  ");
    assert_eq!(buf.lines.len(), 4);
}

#[test]
fn gc_trims_to_soft_limit() {
    let content = vec![("ab", false), ("cd", false)];
    let mut buf = buffer(&content, Some(10), 0);
    buf.scroll_up(0..2, 2, &Pen::default());
    assert_eq!(buf.lines.len(), 4);
    assert!(buf.gc().is_none());
    for _ in 0..5 {
        buf.scroll_up(0..2, 2, &Pen::default());
    }
    assert_eq!(buf.lines.len(), 14);
    let removed = buf.gc().unwrap();
    assert_eq!(removed.len(), 2);
    assert_eq!(removed[0].text(), "ab");
    assert_eq!(buf.lines.len(), 12);
    assert!(buf.gc().is_none());
}

#[test]
fn erase_modes() {
    let content = vec![("abcd", true), ("efgh", false), ("ijkl", false)];

    let mut buf = buffer(&content, None, 0);
    buf.erase((1, 1), avt::buffer::EraseMode::NextChars(2), &Pen::default());
    assert_eq!(buf.text(), vec!["abcde  h", "ijkl"]);

    let mut buf = buffer(&content, None, 0);
    buf.erase((1, 1), avt::buffer::EraseMode::FromCursorToEndOfView, &Pen::default());
    assert_eq!(buf.text(), vec!["abcde", ""]);

    let mut buf = buffer(&content, None, 0);
    buf.erase((1, 1), avt::buffer::EraseMode::FromStartOfViewToCursor, &Pen::default());
    assert_eq!(buf.text(), vec!["", "  gh", "ijkl"]);

    let mut buf = buffer(&content, None, 0);
    buf.erase((2, 2), avt::buffer::EraseMode::WholeLine, &Pen::default());
    assert_eq!(buf.text(), vec!["abcdefgh", ""]);
}

fn logical_inks(lines: &[avt::line::Line]) -> Vec<String> {
    let mut out = Vec::new();
    let mut cur = String::new();
    let mut open = false;
    for line in lines {
        cur.extend(line.chars().into_iter().filter(|ch| *ch != ' '));
        open = true;
        if !line.wrapped {
            out.push(std::mem::take(&mut cur));
            open = false;
        }
    }
    if open {
        out.push(cur);
    }
    out
}

#[test]
fn reflow_keeps_logical_lines() {
    let mut vt = avt::vt::Vt::new(8, 4);
    vt.feed_str("one two three four\r\n\u{4e2d}\u{6587}ab\u{6587}cd  \r\n\r\nx");
    let lines: Vec<avt::line::Line> = vt.lines().to_vec();
    let before = logical_inks(&lines);
    assert_eq!(before, vec!["onetwothreefour".to_string(), "\u{4e2d}\u{6587}ab\u{6587}cd".to_string(), String::new(), "x".to_string()]);

    for cols in [2usize, 3, 5, 7, 8, 11, 30] {
        let out = avt::buffer::reflow(lines.clone(), cols);
        assert!(out.iter().all(|l| l.len() == cols));
        assert_eq!(logical_inks(&out), before);
    }
}

#[test]
fn buffer_insert() {
    let mut buffer = buffer(&[("abcde", true), ("fghij", false)], None, 0);
    let cell = Cell::new('x', Occupancy::Single, Pen::default());

    buffer.insert((1, 0), 2, cell);

    let view: Vec<String> = buffer.view().iter().map(line).collect();
    assert_eq!(view, vec!["axxbc⏎", "fghij"]);

    // more than the rest of the row: only up to its end
    buffer.insert((3, 1), 10, cell);

    let view: Vec<String> = buffer.view().iter().map(line).collect();
    assert_eq!(view, vec!["axxbc⏎", "fghxx"]);
}
