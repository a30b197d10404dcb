use cybergrind::codec::{parse_height_row, ParseError, ParseErrorKind};
use cybergrind::model::{Height, Level, Prefab};

const TEST_MAP: &str = r#"222211000(-1)(-2)(-2)(-2)(-1)00
2222(-15)(-15)(-15)00(-15)(-15)(-15)(-15)(-15)0(-15)
(-15)(-15)(-15)(-15)(-15)(-15)(-15)00(-15)(-15)(-15)(-15)(-15)0(-15)
(-15)(-15)(-15)(-15)(-15)(-15)(-15)00(-15)(-15)(-15)(-15)(-15)0(-15)
222221000012100(-15)
222221000012100(-15)
(-15)(-15)22(-15)(-15)(-15)00(-15)(-15)(-15)(-15)(-15)0(-15)
(-15)(-15)11(-15)(-15)(-15)00(-15)(-15)(-15)(-15)(-15)0(-15)
(-15)(-15)00(-15)(-15)(-15)00(-15)(-15)00000
(-15)(-15)0001000(-15)(-15)00000
(-15)(-15)0001000(-15)(-15)00111
(-15)(-15)(-15)(-15)(-15)(-15)(-15)00(-15)(-15)00111
(-15)(-15)(-15)(-15)(-15)(-15)(-15)00(-15)(-15)00111
555(-15)(-15)(-15)(-15)00(-15)(-15)00111
555321000(-15)(-15)00111
555(-15)(-15)(-15)(-15)000000111

ppnnsnsnnssnsspp
ppnnJJJnnJJJJJpJ
JJJJJJJnnJJJJJnJ
JJJJJJJnnJJJJJnJ
ppnnnssppssnsspJ
ppnnnssppssnsspJ
JJnnJJJnnJJJJJnJ
JJssJJJnnJJJJJnJ
JJssJJJnnJJ00000
JJppsnsnnJJ00sss
JJppsnsnnJJ0sppp
JJJJJJJnnJJ0sppp
JJJJJJJnnJJ0s000
pppJJJJnnJJ0s000
pppssssppJJ0s0H0
pppJJJJppnn0s000"#;

#[test]
fn parse_height() {
    assert_eq!(Height::parse(b"(15)", 0).unwrap().0, Height(15));
    assert_eq!(Height::parse(b"(-2)", 0).unwrap().0, Height(-2));
    assert_eq!(Height::parse(b"0", 0).unwrap().0, Height(0));
    assert_eq!(Height::parse(b"8", 0).unwrap().0, Height(8));
    assert_eq!(Height::parse(b"55", 0).unwrap().0, Height(5));
}

#[test]
fn parse_height_list() {
    let r = parse_height_row(b"(-8)22211000(-1)(-2)(-2)(-2)(-1)00", 0).unwrap();
    println!("{:?}", r);
}

#[test]
fn parse_prefab() {
    assert_eq!(Prefab::parse(b"0", 0).unwrap().0, Prefab::Empty);
    assert_eq!(Prefab::parse(b"n", 0).unwrap().0, Prefab::Melee);
    assert_eq!(Prefab::parse(b"p", 0).unwrap().0, Prefab::Projectile);
    assert_eq!(Prefab::parse(b"J", 0).unwrap().0, Prefab::JumpPad);
    assert_eq!(Prefab::parse(b"s", 0).unwrap().0, Prefab::Stairs);
    assert_eq!(Prefab::parse(b"H", 0).unwrap().0, Prefab::Hideous);
}

#[test]
fn parse_in() {
    let parsed = Level::parse(TEST_MAP.as_bytes()).unwrap();

    println!("{:#?}", parsed);
}

#[test]
fn parse_out() {
    let parsed = Level::parse(TEST_MAP.as_bytes()).unwrap();
    let serialized = parsed.serialize();
    assert_eq!(serialized, TEST_MAP.as_bytes().to_vec());
}

#[test]
fn parse_greedy_one_cell_per_digit() {
    // A run of unparenthesized digits is consecutive cells, never one number.
    let (row, end) = parse_height_row(b"5500000000000000", 0).unwrap();
    assert_eq!(end, 16);
    assert_eq!(row[0], Height(5));
    assert_eq!(row[1], Height(5));
    assert_eq!(row[2], Height(0));
}

#[test]
fn height_cell_positions() {
    // The returned position is just past the cell.
    assert_eq!(Height::parse(b"(15)", 0).unwrap().1, 4);
    assert_eq!(Height::parse(b"7", 0).unwrap().1, 1);
    assert_eq!(Height::parse(b"(-128)", 0).unwrap().0, Height(-128));
    assert_eq!(Height::parse(b"(127)", 0).unwrap().0, Height(127));
    assert_eq!(Height::parse(b"(0005)", 0).unwrap().0, Height(5));
}

#[test]
fn height_serialization_choice() {
    // 0..=9 are a single digit; everything else is parenthesized.
    assert_eq!(Height(0).serialize(), b"0".to_vec());
    assert_eq!(Height(9).serialize(), b"9".to_vec());
    assert_eq!(Height(10).serialize(), b"(10)".to_vec());
    assert_eq!(Height(15).serialize(), b"(15)".to_vec());
    assert_eq!(Height(-1).serialize(), b"(-1)".to_vec());
    assert_eq!(Height(-50).serialize(), b"(-50)".to_vec());
    assert_eq!(Height(127).serialize(), b"(127)".to_vec());
    assert_eq!(Height(-128).serialize(), b"(-128)".to_vec());
}

#[test]
fn prefab_serialization() {
    assert_eq!(Prefab::Empty.serialize(), b"0".to_vec());
    assert_eq!(Prefab::Melee.serialize(), b"n".to_vec());
    assert_eq!(Prefab::Projectile.serialize(), b"p".to_vec());
    assert_eq!(Prefab::JumpPad.serialize(), b"J".to_vec());
    assert_eq!(Prefab::Stairs.serialize(), b"s".to_vec());
    assert_eq!(Prefab::Hideous.serialize(), b"H".to_vec());
}

#[test]
fn round_trip_default_level() {
    let m = Level::new_document();
    let text = m.serialize();
    let back = Level::parse(&text).unwrap();
    assert_eq!(back, m);
}

#[test]
fn round_trip_test_map() {
    let m = Level::parse(TEST_MAP.as_bytes()).unwrap();
    let back = Level::parse(&m.serialize()).unwrap();
    assert_eq!(back, m);
}

#[test]
fn from_str_matches_parse() {
    let a = Level::from_str(TEST_MAP).unwrap();
    let b = Level::parse(TEST_MAP.as_bytes()).unwrap();
    assert_eq!(a, b);
}

#[test]
fn scenario_first_cell_and_reserialize() {
    // The first height character is the digit 2 and the first prefab
    // character is p; re-serializing reproduces the text byte for byte.
    let parsed = Level::parse(TEST_MAP.as_bytes()).unwrap();
    assert_eq!(parsed.heights.get(0, 0), Some(Height(2)));
    assert_eq!(parsed.prefabs.get(0, 0), Some(Prefab::Projectile));
    assert_eq!(parsed.serialize(), TEST_MAP.as_bytes().to_vec());
}

#[test]
fn error_bad_height_token() {
    assert_eq!(
        Height::parse(b"x", 0),
        Err(ParseError { kind: ParseErrorKind::BadHeightToken, pos: 0 })
    );
    // An unparenthesized value that does not fit in 8 bits.
    assert_eq!(
        Height::parse(b"(128)", 0),
        Err(ParseError { kind: ParseErrorKind::BadHeightToken, pos: 0 })
    );
    assert_eq!(
        Height::parse(b"(-129)", 0),
        Err(ParseError { kind: ParseErrorKind::BadHeightToken, pos: 0 })
    );
    // Parentheses without digits, and an unclosed token.
    assert_eq!(
        Height::parse(b"()", 0),
        Err(ParseError { kind: ParseErrorKind::BadHeightToken, pos: 0 })
    );
    assert_eq!(
        Height::parse(b"(-)", 0),
        Err(ParseError { kind: ParseErrorKind::BadHeightToken, pos: 0 })
    );
    assert_eq!(
        Height::parse(b"(15", 0),
        Err(ParseError { kind: ParseErrorKind::BadHeightToken, pos: 0 })
    );
    // The error position names the offending cell.
    let err = parse_height_row(b"55x5555555555555", 0).unwrap_err();
    assert_eq!(err.kind, ParseErrorKind::BadHeightToken);
    assert_eq!(err.pos, 2);
}

#[test]
fn error_bad_prefab_char() {
    let err = Prefab::parse(b"x", 0).unwrap_err();
    assert_eq!(err.kind, ParseErrorKind::BadPrefabChar);
    assert_eq!(err.pos, 0);
    // In a full document, the bad prefab is reported at its position.
    let mut text = TEST_MAP.as_bytes().to_vec();
    let prefab_start = TEST_MAP.find("\n\n").unwrap() + 2;
    text[prefab_start] = b'q';
    let err = Level::parse(&text).unwrap_err();
    assert_eq!(err.kind, ParseErrorKind::BadPrefabChar);
    assert_eq!(err.pos, prefab_start);
}

#[test]
fn error_wrong_dimensions() {
    // A 17th cell where the line break should be.
    let mut text = String::new();
    for y in 0..16 {
        if y > 0 {
            text.push('\n');
        }
        let cells = if y == 0 { 17 } else { 16 };
        for _ in 0..cells {
            text.push('1');
        }
    }
    text.push_str("\n\n");
    for y in 0..16 {
        if y > 0 {
            text.push('\n');
        }
        for _ in 0..16 {
            text.push('0');
        }
    }
    let err = Level::parse(text.as_bytes()).unwrap_err();
    assert_eq!(err.kind, ParseErrorKind::WrongDimensions);
    assert_eq!(err.pos, 16);
}

#[test]
fn error_missing_separator() {
    // Only one line break between the grids.
    let text = TEST_MAP.replace("\n\n", "\n");
    let err = Level::parse(text.as_bytes()).unwrap_err();
    assert_eq!(err.kind, ParseErrorKind::MissingSeparator);
}

#[test]
fn error_trailing_input() {
    let mut text = TEST_MAP.as_bytes().to_vec();
    text.push(b'\n');
    let err = Level::parse(&text).unwrap_err();
    assert_eq!(err.kind, ParseErrorKind::TrailingInput);
    assert_eq!(err.pos, TEST_MAP.len());
}
