use avt::cell::{Cell, Occupancy};
use avt::line::Line;
use avt::pen::Pen;

fn chars(cells: &[Cell]) -> Vec<char> {
    cells.iter().map(|c| c.char()).collect()
}

#[test]
fn chunks() {
    let pen = Pen::default();

    let cells = vec![
        Cell::new('0', Occupancy::Single, pen),
        Cell::new('a', Occupancy::Single, pen),
        Cell::new('b', Occupancy::Single, pen),
        Cell::new('C', Occupancy::Single, pen),
        Cell::new('D', Occupancy::Single, pen),
        Cell::new('E', Occupancy::Single, pen),
        Cell::new('1', Occupancy::Single, pen),
        Cell::new('F', Occupancy::Single, pen),
        Cell::new('g', Occupancy::Single, pen),
    ];

    let line = Line { cells, wrapped: false };

    let chunks: Vec<Vec<Cell>> = line.chunks(|c1: &Cell, c2: &Cell| {
        c1.char().is_ascii_digit()
            || c2.char().is_ascii_digit()
            || (c1.char().is_lowercase() && c2.char().is_uppercase())
            || (c1.char().is_uppercase() && c2.char().is_lowercase())
    });

    assert_eq!(&chars(&chunks[0]), &['0']);
    assert_eq!(&chars(&chunks[1]), &['a', 'b']);
    assert_eq!(&chars(&chunks[2]), &['C', 'D', 'E']);
    assert_eq!(&chars(&chunks[3]), &['1']);
    assert_eq!(&chars(&chunks[4]), &['F']);
    assert_eq!(&chars(&chunks[5]), &['g']);
}

#[test]
fn chunks_skip_wide_tails() {
    let pen = Pen::default();
    let mut line = Line::blank(6, pen);
    line.print(0, 'ハ', pen);
    line.print(2, 'x', pen);

    let chunks = line.chunks(|_: &Cell, _: &Cell| false);

    assert_eq!(chunks.len(), 1);
    assert_eq!(chars(&chunks[0]), vec!['ハ', 'x', ' ', ' ', ' ']);
}

#[test]
fn print_wide_char() {
    let pen = Pen::default();
    let mut line = Line::blank(4, pen);

    assert_eq!(line.print(0, 'ハ', pen), Some(2));
    assert_eq!(line.cells[0].occupancy(), Occupancy::WideHead);
    assert_eq!(line.cells[1].occupancy(), Occupancy::WideTail);
    assert_eq!(line.print(3, 'ハ', pen), None);
    assert_eq!(line.print(1, 'x', pen), Some(1));
    assert_eq!(line.text(), " x  ");
}

#[test]
fn line_extend_and_contract() {
    let pen = Pen::default();
    let mut a = Line::blank(3, pen);
    a.print(0, 'a', pen);
    a.print(1, 'b', pen);
    a.print(2, 'c', pen);
    a.wrapped = true;
    let mut b = Line::blank(3, pen);
    b.print(0, 'd', pen);
    b.wrapped = false;

    let (done, rest) = a.extend(b, 5);
    assert!(done);
    assert!(rest.is_none());
    assert_eq!(a.text(), "abcd ");
    assert!(!a.wrapped);

    let rest = a.contract(2).unwrap();
    assert_eq!(a.text(), "ab");
    assert!(a.wrapped);
    assert_eq!(rest.text(), "cd");
    assert!(!rest.wrapped);
}
