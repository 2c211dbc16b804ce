use avt::charset::Charset;

#[test]
fn translate() {
    let charset = Charset::Ascii;
    assert_eq!(charset.translate('A'), 'A');
    assert_eq!(charset.translate('a'), 'a');
    assert_eq!(charset.translate('~'), '~');

    let charset = Charset::Drawing;
    assert_eq!(charset.translate('A'), 'A');
    assert_eq!(charset.translate('a'), '▒');
    assert_eq!(charset.translate('~'), '⋅');
}

#[test]
fn translate_leaves_non_ascii_alone() {
    assert_eq!(Charset::Drawing.translate('日'), '日');
    assert_eq!(Charset::Drawing.translate('_'), '_');
    assert_eq!(Charset::Drawing.translate('q'), '─');
}
