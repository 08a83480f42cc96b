use punchcard::card::Card;
use punchcard::charset::Charset;
use punchcard::errors::PunchError;

#[test]
fn builtin_uses_hole_and_blank_glyphs() {
    let mut card = Card::with_charset(Charset::builtin());
    card.punch_char('A').unwrap();
    let rows = card.rows();
    for (i, row) in rows.iter().enumerate() {
        let expected = if i == 0 || i == 3 { 'O' } else { ' ' };
        assert_eq!(row, &vec![expected]);
    }
}

#[test]
fn builtin_encodes_the_documented_codes() {
    let cs = Charset::builtin();
    assert_eq!(cs.encode(' ').unwrap().values(), vec![0, 0, 0, 0, 0, 0, 0, 0, 0, 0, 0, 0]);
    assert_eq!(cs.encode('&').unwrap().values(), vec![1, 0, 0, 0, 0, 0, 0, 0, 0, 0, 0, 0]);
    assert_eq!(cs.encode('-').unwrap().values(), vec![0, 1, 0, 0, 0, 0, 0, 0, 0, 0, 0, 0]);
    assert_eq!(cs.encode('0').unwrap().values(), vec![0, 0, 1, 0, 0, 0, 0, 0, 0, 0, 0, 0]);
    assert_eq!(cs.encode('9').unwrap().values(), vec![0, 0, 0, 0, 0, 0, 0, 0, 0, 0, 0, 1]);
    assert_eq!(cs.encode('A').unwrap().values(), vec![1, 0, 0, 1, 0, 0, 0, 0, 0, 0, 0, 0]);
    assert_eq!(cs.encode('I').unwrap().values(), vec![1, 0, 0, 0, 0, 0, 0, 0, 0, 0, 0, 1]);
    assert_eq!(cs.encode('J').unwrap().values(), vec![0, 1, 0, 1, 0, 0, 0, 0, 0, 0, 0, 0]);
    assert_eq!(cs.encode('R').unwrap().values(), vec![0, 1, 0, 0, 0, 0, 0, 0, 0, 0, 0, 1]);
    assert_eq!(cs.encode('/').unwrap().values(), vec![0, 0, 1, 1, 0, 0, 0, 0, 0, 0, 0, 0]);
    assert_eq!(cs.encode('S').unwrap().values(), vec![0, 0, 1, 0, 1, 0, 0, 0, 0, 0, 0, 0]);
    assert_eq!(cs.encode('Z').unwrap().values(), vec![0, 0, 1, 0, 0, 0, 0, 0, 0, 0, 0, 1]);
}

#[test]
fn builtin_round_trips_every_supported_character() {
    let cs = Charset::builtin();
    let all = " &-0123456789ABCDEFGHIJKLMNOPQRSTUVWXYZ/";
    for c in all.chars() {
        let col = cs.encode(c).unwrap();
        assert_eq!(cs.decode(&col).unwrap(), c);
    }
}

#[test]
fn builtin_round_trips_a_sentence() {
    let mut card = Card::with_charset(Charset::builtin());
    card.punch_str("HELLO WORLD 42").unwrap();
    assert_eq!(card.read().unwrap(), "HELLO WORLD 42");
    let rows = card.rows();
    assert_eq!(rows.len(), 12);
    for row in rows {
        assert_eq!(row.len(), 14);
    }
}

#[test]
fn builtin_rejects_lowercase() {
    let mut card = Card::with_charset(Charset::builtin());
    let r = card.punch_str("OK then");
    assert_eq!(r, Err(PunchError::UnsupportedCharacter('t')));
    assert_eq!(card.read().unwrap(), "OK ");
}
