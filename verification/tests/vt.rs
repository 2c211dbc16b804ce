use avt::vt::Vt;

fn assert_vts_eq(vt1: &Vt, vt2: &Vt) {
    assert!(vt1.parser.assert_eq(&vt2.parser));
    assert!(vt1.terminal.assert_eq(&vt2.terminal));
}

#[test]
fn feed_str_returns_changed_lines() {
    let mut vt = Vt::builder().size(2, 2).build();

    vt.feed_str("");

    let (lines, scrollback) = {
        let changes = vt.feed_str("aa\r\nbb\r\ncc");

        let scrollback = changes
            .scrollback
            .iter()
            .map(|line| line.text())
            .collect::<Vec<_>>();

        (changes.lines, scrollback)
    };

    assert_eq!(lines, vec![0, 1]);
    assert_eq!(scrollback, Vec::<String>::new());
}

#[test]
fn feed_str_updates_accessors() {
    let mut vt = Vt::builder().size(2, 2).build();

    vt.feed_str("");
    vt.feed_str("aa\r\nbb\r\ncc");

    assert_eq!(vt.size(), (2, 2));
    assert_eq!((vt.cursor().col, vt.cursor().row), (2, 1));

    assert_eq!(
        vt.text(),
        vec!["aa".to_owned(), "bb".to_owned(), "cc".to_owned()]
    );

    assert_eq!(vt.view().len(), 2);
    assert!(vt.lines().len() >= 2);
    assert_eq!(vt.line(0).chars().into_iter().take(2).collect::<String>(), "bb");
}

#[test]
fn feed_str_returns_trimmed_scrollback() {
    let mut vt = Vt::builder().size(2, 2).scrollback_limit(0).build();

    vt.feed_str("");

    let scrollback = {
        let changes = vt.feed_str("aa\r\nbb\r\ncc");

        changes
            .scrollback
            .iter()
            .map(|line| line.text())
            .collect::<Vec<_>>()
    };

    assert_eq!(scrollback, vec!["aa".to_owned()]);
    assert_eq!(vt.text(), vec!["bb".to_owned(), "cc".to_owned()]);
}

#[test]
fn resize_returns_changed_lines() {
    let mut vt = Vt::new(4, 2);

    vt.feed_str("");

    let (lines, scrollback_count) = {
        let changes = vt.resize(4, 3);

        (changes.lines, changes.scrollback.len())
    };

    assert_eq!(lines, vec![0, 1, 2]);
    assert_eq!(scrollback_count, 0);
}

#[test]
fn resize_updates_size_accessor() {
    let mut vt = Vt::new(4, 2);

    vt.resize(4, 3);

    assert_eq!(vt.size(), (4, 3));
}

#[test]
fn dump_initial() {
    let vt1 = Vt::new(10, 4);
    let mut vt2 = Vt::new(10, 4);

    vt2.feed_str(&vt1.dump());

    assert_vts_eq(&vt1, &vt2);
}

#[test]
fn dump_modified() {
    let mut vt1 = Vt::new(10, 4);
    let mut vt2 = Vt::new(10, 4);

    vt1.feed_str("hello\n\rworld 日\u{9b}5W\u{9b}7`\u{1b}[W\u{9b}?6h");
    vt1.feed_str("\u{9b}2;4r\u{9b}1;5H\x1b[1;31;41m\u{9b}?25l\u{9b}4h");
    vt1.feed_str("\u{9b}?7l\u{9b}20h\u{9b}\u{3a}\x1b(0\x1b)0\u{0e}");

    vt2.feed_str(&vt1.dump());

    assert_vts_eq(&vt1, &vt2);
}

#[test]
fn dump_text_examples() {
    let mut vt = Vt::new(10, 3);
    vt.feed_str("ab");
    assert_eq!(vt.dump(), "ab \x1b[7b\r\n\x1b[0m\x1b[1;3H\x1b[0m");

    let mut vt = Vt::new(10, 3);
    vt.feed_str("\x1b[1ma");
    assert_eq!(vt.dump(), "\x1b[1ma\x1b[22m \x1b[8b\r\n\x1b[0m\x1b[1;2H\x1b[0;1m");
}

/// Arbitrary terminal input built from control characters, escape and
/// control sequences and text, the same on every run for a seed.
struct Gen(u64);

impl Gen {
    fn next(&mut self) -> u32 {
        self.0 = self.0.wrapping_mul(6364136223846793005).wrapping_add(1442695040888963407);
        (self.0 >> 33) as u32
    }

    fn pick<T: Copy>(&mut self, items: &[T]) -> T {
        items[self.next() as usize % items.len()]
    }

    fn param(&mut self, out: &mut String) {
        for _ in 0..self.next() % 6 {
            if self.next() % 3 == 0 {
                out.push(';');
            } else {
                out.push(char::from(b'0' + (self.next() % 10) as u8));
            }
        }
    }

    fn input(&mut self, max_len: u32) -> String {
        let mut out = String::new();

        for _ in 0..1 + self.next() % max_len {
            match self.next() % 4 {
                0 => {
                    let c = self.pick(&[0x00u8, 0x07, 0x08, 0x09, 0x0a, 0x0b, 0x0d, 0x0e, 0x0f, 0x19, 0x1c]);
                    out.push(char::from(c));
                }
                1 => {
                    out.push('\x1b');
                    for _ in 0..self.next() % 3 {
                        out.push(char::from(0x20 + (self.next() % 0x10) as u8));
                    }
                    out.push(self.pick(&['7', '8', 'c', 'D', 'E', 'H', 'M', '0', 'B', '#', '=']));
                }
                2 => {
                    out.push_str("\x1b[");
                    match self.next() % 4 {
                        0 => {
                            self.param(&mut out);
                            out.push('m');
                        }
                        1 | 2 => {
                            if self.next() % 2 == 0 {
                                out.push(self.pick(&['?', '!']));
                            }
                            let modes = ["1", "4", "6", "7", "20", "25", "47", "1047", "1048", "1049"];
                            out.push_str(self.pick(&modes));
                            out.push(self.pick(&['h', 'l']));
                        }
                        _ => {
                            self.param(&mut out);
                            out.push(char::from(0x40 + (self.next() % 0x3f) as u8));
                        }
                    }
                }
                _ => {
                    for _ in 0..1 + self.next() % 9 {
                        let c = match self.next() % 7 {
                            5 => char::from_u32(0x80 + self.next() % (0xd7ff - 0x80)).unwrap(),
                            6 => char::from_u32(0xf900 + self.next() % (0xffff - 0xf900)).unwrap(),
                            _ => char::from(0x20 + (self.next() % 0x60) as u8),
                        };
                        out.push(c);
                    }
                }
            }
        }

        out
    }
}

#[test]
fn sanity_checks_infinite_scrollback() {
    let mut gen = Gen(1);

    for _ in 0..300 {
        let mut vt = Vt::builder().size(10, 5).build();
        vt.feed_str(&gen.input(25));
        assert!(vt.terminal.verify());
        assert!(vt.lines().len() >= vt.size().1);
    }
}

#[test]
fn sanity_checks_no_scrollback() {
    let mut gen = Gen(2);

    for _ in 0..300 {
        let mut vt = Vt::builder().size(10, 5).scrollback_limit(0).build();
        vt.feed_str(&gen.input(25));
        assert!(vt.terminal.verify());
        assert!(vt.lines().len() == vt.size().1);
    }
}

#[test]
fn sanity_checks_fixed_scrollback() {
    let mut gen = Gen(3);

    for _ in 0..300 {
        let scrollback_limit = 3;
        let mut vt = Vt::builder().size(10, 5).scrollback_limit(scrollback_limit).build();
        vt.feed_str(&gen.input(25));
        let (_, rows) = vt.size();
        assert!(vt.terminal.verify());
        assert!(vt.lines().len() >= rows && vt.lines().len() <= rows + scrollback_limit);
    }
}

#[test]
fn resizing_keeps_sanity() {
    let mut gen = Gen(4);

    for _ in 0..300 {
        let new_cols = 2 + (gen.next() % 13) as usize;
        let new_rows = 2 + (gen.next() % 6) as usize;
        let mut vt = Vt::builder().size(10, 5).build();
        vt.feed_str(&gen.input(25));
        vt.resize(new_cols, new_rows);
        vt.feed_str(&gen.input(25));
        assert!(vt.terminal.verify());
        assert!(vt.lines().len() >= vt.size().1);
    }
}

#[test]
fn dump_roundtrip_examples() {
    let mut gen = Gen(5);

    for _ in 0..300 {
        let mut vt1 = Vt::new(10, 5);
        let mut vt2 = Vt::new(10, 5);
        vt1.feed_str(&gen.input(25));
        vt2.feed_str(&vt1.dump());
        assert_vts_eq(&vt1, &vt2);
    }
}

#[test]
fn scrollback_law_examples() {
    let mut vt = Vt::builder().size(4, 2).scrollback_limit(20).build();
    let mut gone = 0;

    for _ in 0..30 {
        gone += vt.feed_str("a\r\nb\r\nc\r\nd\r\n").scrollback.len();
        assert!(vt.lines().len() >= 2);
        assert!(vt.lines().len() <= 2 + 20 + 2);
    }

    assert!(gone > 0);
    assert!(vt.can_dump());
}

#[test]
fn terminal_checks_hold_and_fail() {
    let mut vt = Vt::builder().size(4, 2).build();
    vt.feed_str("a\u{4e2d}b\r\nxyz");
    assert!(vt.terminal.verify());

    vt.terminal.cursor.row = 2;
    assert!(!vt.terminal.verify());
}

#[test]
fn terminals_compare_by_state() {
    let mut vt1 = Vt::builder().size(4, 2).build();
    let mut vt2 = Vt::builder().size(4, 2).build();
    vt1.feed_str("ab");
    vt2.feed_str("ab");
    assert!(vt1.terminal.assert_eq(&vt2.terminal));

    vt2.feed_str("\x08c");
    assert!(!vt1.terminal.assert_eq(&vt2.terminal));

    vt1.feed_str("\x08c");
    assert!(vt1.terminal.assert_eq(&vt2.terminal));

    vt1.feed_str("\x1b[?1049h");
    assert!(!vt1.terminal.assert_eq(&vt2.terminal));
}

fn ink(vt: &Vt) -> String {
    vt.lines()
        .iter()
        .flat_map(|line| line.chars())
        .filter(|ch| *ch != ' ')
        .collect()
}

#[test]
fn resize_keeps_shown_characters() {
    let mut vt = Vt::new(6, 4);
    vt.feed_str("abcdefgh ij\r\nk\u{4e2d}l\u{6587}mn");
    let before = ink(&vt);
    assert_eq!(before, "abcdefghijk\u{4e2d}l\u{6587}mn");

    vt.resize(3, 4);
    assert_eq!(ink(&vt), before);

    vt.resize(10, 4);
    assert_eq!(ink(&vt), before);

    vt.resize(4, 6);
    assert_eq!(ink(&vt), before);
}

#[test]
fn printed_cells_carry_no_combining_marks() {
    let mut vt = Vt::new(4, 2);
    vt.feed_str("e\u{301}x");
    let cells = &vt.lines()[0].cells;
    assert!(cells.iter().all(|c| c.combining().is_empty()));
}

#[test]
fn text_trims_unicode_white_space() {
    let listed: Vec<u32> = (0x09..=0x0d)
        .chain([0x20, 0x85, 0xa0, 0x1680])
        .chain(0x2000..=0x200a)
        .chain([0x2028, 0x2029, 0x202f, 0x205f, 0x3000])
        .collect();
    let std_white: Vec<u32> = (0..=0x10ffffu32)
        .filter_map(char::from_u32)
        .filter(|c| c.is_whitespace())
        .map(|c| c as u32)
        .collect();
    assert_eq!(std_white, listed);

    let mut vt = Vt::new(10, 2);
    vt.feed_str("ab\u{a0}\u{3000}");
    assert_eq!(vt.text(), vec!["ab".to_string(), String::new()]);
}

#[test]
fn repeated_print_draws_like_prints() {
    let mut vt1 = Vt::new(10, 2);
    let mut vt2 = Vt::new(10, 2);

    vt1.feed_str("日x\x1b[6b");
    vt2.feed_str("日xxxxxxx");

    assert_vts_eq(&vt1, &vt2);
    assert_eq!(vt1.text(), vec!["日xxxxxxx".to_string(), String::new()]);
}
