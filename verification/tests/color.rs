use clock::color::{names, parse, Color};

#[test]
fn ansi_names() {
    assert_eq!(parse("red"), Color::Red);
    assert_eq!(parse("  Blue\n"), Color::Blue);
    assert_eq!(parse("MAGENTA"), Color::Magenta);
    assert_eq!(parse("purple"), Color::Magenta);
    assert_eq!(parse("gray"), Color::DarkGrey);
    assert_eq!(parse("grey"), Color::DarkGrey);
    assert_eq!(parse("orange"), Color::DarkYellow);
    assert_eq!(parse("dark_cyan"), Color::DarkCyan);
    assert_eq!(parse("black"), Color::Black);
}

#[test]
fn unknown_names_are_white() {
    assert_eq!(parse("chartreuse"), Color::White);
    assert_eq!(parse(""), Color::White);
    assert_eq!(parse("dark red"), Color::White);
}

#[test]
fn truecolor_hex() {
    assert_eq!(parse("#33ccff"), Color::Rgb { r: 0x33, g: 0xcc, b: 0xff });
    assert_eq!(parse(" #38D9E8 "), Color::Rgb { r: 0x38, g: 0xd9, b: 0xe8 });
    // Five digits or a non-hex digit is no color at all.
    assert_eq!(parse("#12345"), Color::White);
    assert_eq!(parse("#12345g"), Color::White);
    // Only six hex digits make a color: a sign is not one.
    assert_eq!(parse("#+12345"), Color::White);
}

#[test]
fn truecolor_rgb_function() {
    assert_eq!(parse("rgb(1, 2,3)"), Color::Rgb { r: 1, g: 2, b: 3 });
    assert_eq!(parse("RGB( 255 ,0, 7 )"), Color::Rgb { r: 255, g: 0, b: 7 });
    assert_eq!(parse("rgb(256,0,0)"), Color::White);
    assert_eq!(parse("rgb(1,2)"), Color::White);
    assert_eq!(parse("rgb(1,2,3,4)"), Color::White);
    assert_eq!(parse("rgb(,2,3)"), Color::White);
    assert_eq!(parse("rgb("), Color::White);
}

#[test]
fn color_names_list() {
    let n = names();
    assert_eq!(n.len(), 16);
    assert_eq!(n[0], "black");
    assert_eq!(n[8], "gray");
    assert_eq!(n[15], "#rrggbb (truecolor)");
}
