use rsvelte::numtext::{to_decimal, to_hex};
use rsvelte::text::str_eq;
use rsvelte::utils::{
    chars_of, expect_next, generic_error, is_whitespace, read_until, read_until_string,
    string_from_chars, update_coord, CharStream, CompileError, Coord,
};

fn rest_of(cs: &mut CharStream) -> String {
    let mut s = String::new();
    while let Some(c) = cs.next() {
        s.push(c);
    }
    s
}

#[test]
fn update_coord_counts_lines_and_columns() {
    let mut coord = Coord { line: 1, col: 0 };
    update_coord('a', &mut coord);
    update_coord('b', &mut coord);
    assert_eq!((coord.line, coord.col), (1, 2));
    update_coord('\n', &mut coord);
    assert_eq!((coord.line, coord.col), (2, 0));
    update_coord('c', &mut coord);
    assert_eq!((coord.line, coord.col), (2, 1));
}

#[test]
fn read_until_stops_before_the_stop_character() {
    let mut cs = CharStream::new("ab\ncd<ef");
    let mut coord = Coord { line: 1, col: 0 };
    let read = read_until(&mut cs, |c| c == '<', &mut coord);
    assert_eq!(read, "ab\ncd");
    assert_eq!((coord.line, coord.col), (2, 2));
    assert_eq!(cs.peek(), Some('<'));
    assert_eq!(rest_of(&mut cs), "<ef");
}

#[test]
fn read_until_reads_everything_without_a_stop() {
    let mut cs = CharStream::new("abc");
    let mut coord = Coord { line: 1, col: 0 };
    let read = read_until(&mut cs, |c| c == '#', &mut coord);
    assert_eq!(read, "abc");
    assert_eq!(cs.peek(), None);
}

#[test]
fn read_until_string_drops_the_target() {
    let mut cs = CharStream::new("let x = 1;</script>\n<div>");
    let mut coord = Coord { line: 1, col: 0 };
    let read = read_until_string(&mut cs, "</script>", &mut coord);
    assert_eq!(read, "let x = 1;");
    assert_eq!(rest_of(&mut cs), "\n<div>");
}

#[test]
fn read_until_string_with_a_partial_match_before_the_target() {
    let mut cs = CharStream::new("a<b</sc</script>z");
    let mut coord = Coord { line: 1, col: 0 };
    let read = read_until_string(&mut cs, "</script>", &mut coord);
    assert_eq!(read, "a<b</sc");
    assert_eq!(rest_of(&mut cs), "z");
}

#[test]
fn read_until_string_without_the_target_reads_to_the_end() {
    let mut cs = CharStream::new("no end here");
    let mut coord = Coord { line: 1, col: 0 };
    let read = read_until_string(&mut cs, "</script>", &mut coord);
    assert_eq!(read, "no end here");
    assert_eq!(cs.peek(), None);
}

#[test]
fn expect_next_consumes_the_expected_character() {
    let mut cs = CharStream::new("=x");
    let mut coord = Coord { line: 3, col: 4 };
    expect_next(&mut cs, '=', &mut coord);
    assert_eq!((coord.line, coord.col), (3, 5));
    assert_eq!(cs.peek(), Some('x'));
}

#[test]
fn generic_error_carries_its_message() {
    let e = generic_error("something failed");
    assert!(matches!(&e, CompileError::GenericError(m) if m == "something failed"));
    assert_eq!(e.message(), "something failed");
}

#[test]
fn located_error_message_names_line_and_column() {
    let e = CompileError::LocError { line: 12, col: 7, message: "bad tag".to_string() };
    assert_eq!(e.message(), "Error at line 12, col 7: bad tag");
}

#[test]
fn decimal_and_hex_text() {
    assert_eq!(to_decimal(0), "0");
    assert_eq!(to_decimal(1234567890), "1234567890");
    assert_eq!(to_decimal(u64::MAX), u64::MAX.to_string());
    assert_eq!(to_hex(0), "0");
    assert_eq!(to_hex(255), "ff");
    assert_eq!(to_hex(0xdead_beef), format!("{:x}", 0xdead_beefu64));
    assert_eq!(to_hex(u64::MAX), format!("{:x}", u64::MAX));
}

#[test]
fn whitespace_matches_std() {
    for c in [' ', '\t', '\n', '\r', '\u{a0}', '\u{2003}', '\u{3000}', 'a', '0', '<', '\u{200b}'] {
        assert_eq!(is_whitespace(c), c.is_whitespace(), "{:?}", c);
    }
}

#[test]
fn char_text_round_trip() {
    let v = chars_of("héllo");
    assert_eq!(v, vec!['h', 'é', 'l', 'l', 'o']);
    assert_eq!(string_from_chars(&v), "héllo");
}

#[test]
fn text_equality() {
    assert!(str_eq("class", "class"));
    assert!(!str_eq("class", "Class"));
    assert!(!str_eq("class", "classes"));
}
