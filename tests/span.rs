use sw::span::ByteSpan;

#[test]
fn span_parts() {
    let s = "ab cd ef";
    let mut sp = ByteSpan::new(3, 2, s);
    assert_eq!(sp.get(), "cd");
    assert_eq!(sp.get_before(), "ab ");
    assert_eq!(sp.get_after(), " ef");
    sp.shift_start_left(1);
    assert_eq!(sp.get(), " cd");
    sp.shift_start_right(2);
    assert_eq!(sp.get(), "d");
    assert_eq!(ByteSpan::new_all(s).get(), s);
}

#[test]
fn span_trim() {
    let s = "  a b \t";
    let mut sp = ByteSpan::new_all(s);
    sp.trim_whitespace();
    assert_eq!(sp.get(), "a b");
    assert_eq!(sp.start(), 2);
    assert_eq!(sp.len(), 3);
    let mut blank = ByteSpan::new(0, 2, s);
    blank.trim_whitespace();
    assert_eq!(blank.get(), "");
}

#[test]
fn span_parts_cover_line() {
    let s = "ab😀cd";
    let sp = ByteSpan::new(2, 4, s);
    sp.in_range();
    let whole = format!("{}{}{}", sp.get_before(), sp.get(), sp.get_after());
    assert_eq!(whole, s);
}
