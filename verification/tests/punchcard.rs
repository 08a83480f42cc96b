use punchcard::card::Card;
use punchcard::charset::Charset;
use punchcard::column::Column;
use punchcard::errors::{CharsetError, PunchError};

fn simple_charset() -> Charset {
    // on_char 'O', off_char ' ', with 'A' and 'B' supported.
    let charmap = vec![
        ('A', Column::new(vec![1, 0, 0, 1, 0, 0, 0, 0, 0, 0, 0, 0])),
        ('B', Column::new(vec![1, 0, 0, 0, 1, 0, 0, 0, 0, 0, 0, 0])),
    ];
    Charset::new('O', ' ', charmap).unwrap()
}

#[test]
fn punch_a_reads_back_and_rows_match() {
    // Charset with 'A' -> [1,0,0,1,0,0,0,0,0,0,0,0]: punching "A" reads
    // back "A"; row 0 (position 12) and row 3 (digit 1) show the hole.
    let mut card = Card::with_charset(simple_charset());
    card.punch_str("A").unwrap();
    assert_eq!(card.read().unwrap(), "A");
    let rows = card.rows();
    assert_eq!(rows.len(), 12);
    assert_eq!(rows[0], vec!['O']);
    assert_eq!(rows[1], vec![' ']);
    assert_eq!(rows[2], vec![' ']);
    assert_eq!(rows[3], vec!['O']);
    for i in 4..12 {
        assert_eq!(rows[i], vec![' ']);
    }
}

#[test]
fn empty_string_gives_empty_card() {
    let mut card = Card::with_charset(simple_charset());
    card.punch_str("").unwrap();
    assert_eq!(card.read().unwrap(), "");
    let rows = card.rows();
    assert_eq!(rows.len(), 12);
    for row in rows {
        assert!(row.is_empty());
    }
}

#[test]
fn unsupported_character_preserves_prefix() {
    let mut card = Card::with_charset(simple_charset());
    let r = card.punch_str("ABX");
    assert_eq!(r, Err(PunchError::UnsupportedCharacter('X')));
    // The columns punched before the failure stay on the card.
    assert_eq!(card.read().unwrap(), "AB");
    let rows = card.rows();
    assert_eq!(rows[0], vec!['O', 'O']);
    assert_eq!(rows[3], vec!['O', ' ']);
    assert_eq!(rows[4], vec![' ', 'O']);
}

#[test]
fn punch_char_fails_without_side_effect() {
    let mut card = Card::with_charset(simple_charset());
    card.punch_char('A').unwrap();
    let r = card.punch_char('x');
    assert_eq!(r, Err(PunchError::UnsupportedCharacter('x')));
    assert_eq!(card.read().unwrap(), "A");
}

#[test]
fn encode_decode_round_trip() {
    let cs = simple_charset();
    for c in ['A', 'B'] {
        let col = cs.encode(c).unwrap();
        assert_eq!(cs.decode(&col).unwrap(), c);
    }
}

#[test]
fn encode_unsupported_reports_character() {
    let cs = simple_charset();
    assert_eq!(cs.encode('?'), Err(PunchError::UnsupportedCharacter('?')));
}

#[test]
fn decode_unknown_column_fails() {
    let cs = simple_charset();
    let blank = Column::new(vec![0; 12]);
    assert_eq!(cs.decode(&blank), Err(PunchError::UnknownColumn));
}

#[test]
fn duplicate_character_rejected() {
    let charmap = vec![
        ('A', Column::new(vec![1, 0, 0, 1, 0, 0, 0, 0, 0, 0, 0, 0])),
        ('A', Column::new(vec![1, 0, 0, 0, 1, 0, 0, 0, 0, 0, 0, 0])),
    ];
    let r = Charset::new('O', ' ', charmap);
    assert_eq!(r.unwrap_err(), CharsetError::DuplicateChar('A'));
}

#[test]
fn duplicate_column_rejected() {
    let charmap = vec![
        ('A', Column::new(vec![1, 0, 0, 1, 0, 0, 0, 0, 0, 0, 0, 0])),
        ('B', Column::new(vec![1, 0, 0, 1, 0, 0, 0, 0, 0, 0, 0, 0])),
    ];
    let r = Charset::new('O', ' ', charmap);
    assert_eq!(r.unwrap_err(), CharsetError::DuplicateColumn('A', 'B'));
}

#[test]
fn rows_always_twelve_with_one_glyph_per_column() {
    let mut card = Card::with_charset(simple_charset());
    card.punch_str("ABBA").unwrap();
    let rows = card.rows();
    assert_eq!(rows.len(), 12);
    for row in &rows {
        assert_eq!(row.len(), 4);
    }
    // Row 0 is position 12: punched for every letter of this charset.
    assert_eq!(rows[0], vec!['O', 'O', 'O', 'O']);
    // Row 3 is digit 1: punched only for 'A'.
    assert_eq!(rows[3], vec!['O', ' ', ' ', 'O']);
    // Row 4 is digit 2: punched only for 'B'.
    assert_eq!(rows[4], vec![' ', 'O', 'O', ' ']);
}

#[test]
fn nonzero_value_renders_as_hole() {
    // The explicit rendering rule: any nonzero value counts as a hole.
    let charmap = vec![('Z', Column::new(vec![0, 0, 2, 0, 0, 0, 0, 0, 0, 0, 0, 0]))];
    let cs = Charset::new('#', '.', charmap).unwrap();
    let mut card = Card::with_charset(cs);
    card.punch_char('Z').unwrap();
    let rows = card.rows();
    assert_eq!(rows[2], vec!['#']);
    assert_eq!(rows[0], vec!['.']);
    // Decoding still compares the stored values exactly.
    assert_eq!(card.read().unwrap(), "Z");
}

#[test]
fn column_stores_and_returns_its_values() {
    let col = Column::new(vec![0, 1, 0, 2, 0, 0, 0, 0, 0, 0, 0, -1]);
    assert_eq!(col.values(), vec![0, 1, 0, 2, 0, 0, 0, 0, 0, 0, 0, -1]);
    assert_eq!(col.get(1), 1);
    assert_eq!(col.get(3), 2);
    assert_eq!(col.get(11), -1);
    let same = Column::new(vec![0, 1, 0, 2, 0, 0, 0, 0, 0, 0, 0, -1]);
    assert_eq!(col, same);
    let other = Column::new(vec![0; 12]);
    assert_ne!(col, other);
}
