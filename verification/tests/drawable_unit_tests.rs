use cui_gaming::{DrawableUnit, UnitColor};

fn get_string_without_style(units: &[DrawableUnit]) -> String {
    let mut s = String::new();
    for unit in units {
        s.push(unit.left);
        if let Some(right) = unit.right {
            s.push(right);
        }
    }
    s
}

#[test]
fn pass() {
    let unit = DrawableUnit::from_single_full_char('あ', UnitColor::White);
    assert_eq!("あ", get_string_without_style(&[unit]));
}

#[test]
fn pass_only_ascii() {
    let unit = DrawableUnit::from_double_half_char('a', 'b', UnitColor::White);
    assert_eq!("ab", get_string_without_style(&[unit]));
}

#[test]
fn pass_only_non_ascii() {
    let unit = DrawableUnit::from_double_half_char('●', '◎', UnitColor::White);
    assert_eq!("●◎", get_string_without_style(&[unit]));
}

#[test]
fn pass_ascii_and_non_ascii() {
    let unit = DrawableUnit::from_double_half_char('a', '◎', UnitColor::White);
    assert_eq!("a◎", get_string_without_style(&[unit]));
}

#[test]
fn only_ascii() {
    let units = DrawableUnit::create_units_from("abcdef", UnitColor::White);
    assert_eq!("abcdef", get_string_without_style(&units));
}

#[test]
fn only_ascii_with_last_whitespace() {
    let units = DrawableUnit::create_units_from("abcdefg", UnitColor::White);
    assert_eq!("abcdefg ", get_string_without_style(&units));
}

#[test]
fn only_full_char() {
    let units = DrawableUnit::create_units_from("あいうえお", UnitColor::White);
    assert_eq!("あいうえお", get_string_without_style(&units));
}

#[test]
fn combining_half_and_full_char() {
    let units = DrawableUnit::create_units_from("あaいiuうe", UnitColor::White);
    assert_eq!("あa いiuうe ", get_string_without_style(&units));
}

#[test]
fn cells_carry_color() {
    let units = DrawableUnit::create_units_from("あ", UnitColor::Red);
    assert_eq!(1, units.len());
    assert_eq!(UnitColor::Red, units[0].color);
    assert_eq!(None, units[0].right);
}

#[test]
fn try_create_accepts_drawable_text() {
    let units = DrawableUnit::try_create_units_from("abcdefg", UnitColor::White).unwrap();
    assert_eq!("abcdefg ", get_string_without_style(&units));
}

#[test]
fn try_create_rejects_control_characters() {
    assert!(DrawableUnit::try_create_units_from("abc\td", UnitColor::White).is_none());
    assert!(DrawableUnit::try_create_units_from("ab\n", UnitColor::White).is_none());
}

#[test]
fn empty_text_gives_no_cells() {
    let units = DrawableUnit::create_units_from("", UnitColor::White);
    assert!(units.is_empty());
}

#[test]
fn every_cell_is_one_square() {
    let units = DrawableUnit::create_units_from("aあbあc", UnitColor::White);
    assert_eq!("a あb あc ", get_string_without_style(&units));
    for unit in &units {
        match unit.right {
            Some(_) => {}
            None => assert_eq!('あ', unit.left),
        }
    }
}
