use vstd::prelude::*;

use crate::column::Column;
use crate::errors::{CharsetError, PunchError};

verus! {

/// A character-set mapping as it looks in specifications: each entry
/// pairs a character with the column pattern it encodes to. The order
/// is the order of the entries in the definition.
pub type Table = Seq<(char, Seq<i32>)>;

/// The table described by a vector of (character, column) entries.
pub open spec fn table_of(entries: Seq<(char, Column)>) -> Table {
    Seq::new(entries.len(), |i: int| (entries[i].0, entries[i].1@))
}

/// The column that `table` assigns to `c`: the first entry whose
/// character is `c`, if any.
pub open spec fn lookup_char(table: Table, c: char) -> Option<Seq<i32>>
    decreases table.len(),
{
    if table.len() == 0 {
        None
    } else if table[0].0 == c {
        Some(table[0].1)
    } else {
        lookup_char(table.drop_first(), c)
    }
}

/// The character that `table` assigns to the column pattern `v`: the
/// first entry whose column is exactly `v`, if any.
pub open spec fn lookup_col(table: Table, v: Seq<i32>) -> Option<char>
    decreases table.len(),
{
    if table.len() == 0 {
        None
    } else if table[0].1 == v {
        Some(table[0].0)
    } else {
        lookup_col(table.drop_first(), v)
    }
}

/// `c` has an entry in `table`.
pub open spec fn supports(table: Table, c: char) -> bool {
    lookup_char(table, c) is Some
}

/// The column pattern `v` has an entry in `table`.
pub open spec fn decodes(table: Table, v: Seq<i32>) -> bool {
    lookup_col(table, v) is Some
}

/// The column of a supported character (an arbitrary value otherwise).
pub open spec fn col_of(table: Table, c: char) -> Seq<i32> {
    match lookup_char(table, c) {
        Some(v) => v,
        None => Seq::empty(),
    }
}

/// The character of a decodable column (an arbitrary value otherwise).
pub open spec fn char_of(table: Table, v: Seq<i32>) -> char {
    match lookup_col(table, v) {
        Some(c) => c,
        None => arbitrary(),
    }
}

/// No two entries give a column to the same character.
pub open spec fn chars_distinct(table: Table) -> bool {
    forall|i: int, j: int| 0 <= i < j < table.len() ==> table[i].0 != table[j].0
}

/// No two entries share a column pattern.
pub open spec fn cols_distinct(table: Table) -> bool {
    forall|i: int, j: int| 0 <= i < j < table.len() ==> table[i].1 != table[j].1
}

/// The encode mapping is a function and its inverse is well defined:
/// characters are distinct and so are their columns.
pub open spec fn injective(table: Table) -> bool {
    chars_distinct(table) && cols_distinct(table)
}

/// Every column of the table covers exactly the twelve punch positions.
pub open spec fn wf_table(table: Table) -> bool {
    forall|i: int| 0 <= i < table.len() ==> (#[trigger] table[i]).1.len() == 12
}

/// A bidirectional mapping between characters and card columns, plus
/// the two glyphs used to render punched and blank positions.
#[derive(Debug)]
pub struct Charset {
    on_char: char,
    off_char: char,
    entries: Vec<(char, Column)>,
}

impl Charset {
    /// The mapping, as a sequence of (character, column) entries.
    pub closed spec fn table(&self) -> Table {
        table_of(self.entries@)
    }

    /// The glyph rendered where a hole is punched.
    pub closed spec fn on_char(&self) -> char {
        self.on_char
    }

    /// The glyph rendered where no hole is punched.
    pub closed spec fn off_char(&self) -> char {
        self.off_char
    }

    pub open spec fn wf(&self) -> bool {
        wf_table(self.table())
    }

    pub fn on_glyph(&self) -> (r: char)
        ensures
            r == self.on_char(),
    {
        self.on_char
    }

    pub fn off_glyph(&self) -> (r: char)
        ensures
            r == self.off_char(),
    {
        self.off_char
    }

    /// Builds a character set from its definition: the two rendering
    /// glyphs and the character-to-column entries. A definition in
    /// which two entries share a character, or two characters share a
    /// column, is rejected, since decoding could not then invert
    /// encoding. When several collisions exist, the one reported is the
    /// first found scanning each entry against all earlier ones, the
    /// character collision checked before the column collision.
    pub fn new(on_char: char, off_char: char, charmap: Vec<(char, Column)>) -> (r: Result<
        Charset,
        CharsetError,
    >)
        requires
            forall|i: int| 0 <= i < charmap@.len() ==> (#[trigger] charmap@[i]).1.wf(),
        ensures
            r is Ok <==> injective(table_of(charmap@)),
            (match r {
                Ok(cs) => cs.table() == table_of(charmap@) && cs.on_char() == on_char
                    && cs.off_char() == off_char && cs.wf() && injective(cs.table()),
                Err(e) => match e {
                    CharsetError::DuplicateChar(c) => exists|i: int, j: int|
                        0 <= i < j < charmap@.len() && (#[trigger] charmap@[i]).0 == c
                            && (#[trigger] charmap@[j]).0 == c,
                    CharsetError::DuplicateColumn(c, d) => exists|i: int, j: int|
                        0 <= i < j < charmap@.len() && (#[trigger] charmap@[i]).0 == c
                            && (#[trigger] charmap@[j]).0 == d && charmap@[i].1@ == charmap@[j].1@,
                },
            }),
    {
        let n = charmap.len();
        let mut j: usize = 1;
        while j < n
            invariant
                1 <= j <= n || n == 0,
                n == charmap@.len(),
                forall|a: int, b: int| 0 <= a < b < j ==> (#[trigger] charmap@[a]).0 != (
                #[trigger] charmap@[b]).0,
                forall|a: int, b: int| 0 <= a < b < j ==> (#[trigger] charmap@[a]).1@ != (
                #[trigger] charmap@[b]).1@,
            decreases n - j,
        {
            let mut i: usize = 0;
            while i < j
                invariant
                    0 <= i <= j < n,
                    n == charmap@.len(),
                    forall|a: int| 0 <= a < i ==> (#[trigger] charmap@[a]).0 != charmap@[j as int].0,
                    forall|a: int| 0 <= a < i ==> (#[trigger] charmap@[a]).1@ != charmap@[j as int].1@,
                decreases j - i,
            {
                if charmap[i].0 == charmap[j].0 {
                    proof {
                        let t = table_of(charmap@);
                        assert(t[i as int].0 == t[j as int].0);
                        assert(!chars_distinct(t));
                    }
                    return Err(CharsetError::DuplicateChar(charmap[j].0));
                }
                if charmap[i].1 == charmap[j].1 {
                    proof {
                        let t = table_of(charmap@);
                        assert(t[i as int].1 == t[j as int].1);
                        assert(!cols_distinct(t));
                    }
                    return Err(CharsetError::DuplicateColumn(charmap[i].0, charmap[j].0));
                }
                i += 1;
            }
            j += 1;
        }
        let cs = Charset { on_char, off_char, entries: charmap };
        proof {
            assert(cs.table() =~= table_of(charmap@));
            assert forall|i: int| 0 <= i < cs.table().len() implies (
            #[trigger] cs.table()[i]).1.len() == 12 by {
                assert(charmap@[i].1.wf());
            }
        }
        Ok(cs)
    }

    /// Looks `c` up in the encode direction and returns a copy of its
    /// column. An unsupported character is reported, never skipped or
    /// replaced.
    pub fn encode(&self, c: char) -> (r: Result<Column, PunchError>)
        requires
            self.wf(),
        ensures
            match r {
                Ok(col) => lookup_char(self.table(), c) == Some(col@) && col.wf(),
                Err(e) => !supports(self.table(), c) && e == PunchError::UnsupportedCharacter(c),
            },
    {
        let n = self.entries.len();
        let mut i: usize = 0;
        while i < n
            invariant
                i <= n,
                n == self.entries@.len(),
                self.wf(),
                forall|m: int| 0 <= m < i ==> (#[trigger] self.entries@[m]).0 != c,
            decreases n - i,
        {
            if self.entries[i].0 == c {
                proof {
                    lemma_lookup_char_found(self.table(), c, i as int);
                }
                let vals = self.entries[i].1.values();
                return Ok(Column::new(vals));
            }
            i += 1;
        }
        proof {
            lemma_lookup_char_none(self.table(), c);
        }
        Err(PunchError::UnsupportedCharacter(c))
    }

    /// Looks a column up in the decode direction, by exact structural
    /// equality of the twelve values. A column with no entry is
    /// reported, never skipped or replaced.
    pub fn decode(&self, col: &Column) -> (r: Result<char, PunchError>)
        requires
            self.wf(),
        ensures
            match r {
                Ok(c) => lookup_col(self.table(), col@) == Some(c),
                Err(e) => !decodes(self.table(), col@) && e == PunchError::UnknownColumn,
            },
    {
        let n = self.entries.len();
        let mut i: usize = 0;
        while i < n
            invariant
                i <= n,
                n == self.entries@.len(),
                self.wf(),
                forall|m: int| 0 <= m < i ==> (#[trigger] self.entries@[m]).1@ != col@,
            decreases n - i,
        {
            if &self.entries[i].1 == col {
                proof {
                    lemma_lookup_col_found(self.table(), col@, i as int);
                }
                return Ok(self.entries[i].0);
            }
            i += 1;
        }
        proof {
            lemma_lookup_col_none(self.table(), col@);
        }
        Err(PunchError::UnknownColumn)
    }
}

/// A column with a hole at position `a` and one at position `b` (and
/// a single hole when `a == b`). A coordinate of 12 punches nothing,
/// so `punch_col(12, 12)` is the blank column.
pub open spec fn punch_col(a: int, b: int) -> Seq<i32> {
    Seq::new(12, |i: int| if i == a || i == b { 1i32 } else { 0i32 })
}

/// The built-in default table, entry by entry: each character with the
/// two hole coordinates of its column. The codes are the IBM 029-style
/// ones: a blank column for the space, one zone hole for '&' and '-',
/// one digit hole for '0' through '9', and a zone hole plus a digit
/// hole for the letters and '/'.
pub open spec fn builtin_table() -> Seq<(char, int, int)> {
    seq![
        (' ', 12, 12),
        ('&', 0, 0),
        ('-', 1, 1),
        ('0', 2, 2),
        ('1', 3, 3),
        ('2', 4, 4),
        ('3', 5, 5),
        ('4', 6, 6),
        ('5', 7, 7),
        ('6', 8, 8),
        ('7', 9, 9),
        ('8', 10, 10),
        ('9', 11, 11),
        ('A', 0, 3),
        ('B', 0, 4),
        ('C', 0, 5),
        ('D', 0, 6),
        ('E', 0, 7),
        ('F', 0, 8),
        ('G', 0, 9),
        ('H', 0, 10),
        ('I', 0, 11),
        ('J', 1, 3),
        ('K', 1, 4),
        ('L', 1, 5),
        ('M', 1, 6),
        ('N', 1, 7),
        ('O', 1, 8),
        ('P', 1, 9),
        ('Q', 1, 10),
        ('R', 1, 11),
        ('/', 2, 3),
        ('S', 2, 4),
        ('T', 2, 5),
        ('U', 2, 6),
        ('V', 2, 7),
        ('W', 2, 8),
        ('X', 2, 9),
        ('Y', 2, 10),
        ('Z', 2, 11),
    ]
}

/// The built-in default mapping with its columns spelled out.
pub open spec fn builtin_map() -> Table {
    Seq::new(
        builtin_table().len(),
        |k: int| (builtin_table()[k].0, punch_col(builtin_table()[k].1, builtin_table()[k].2)),
    )
}

/// One entry of the built-in default table.
fn builtin_entry(k: usize) -> (r: (char, usize, usize))
    requires
        k < 40,
    ensures
        (r.0, r.1 as int, r.2 as int) == builtin_table()[k as int],
{
    match k {
        0 => (' ', 12, 12),
        1 => ('&', 0, 0),
        2 => ('-', 1, 1),
        3 => ('0', 2, 2),
        4 => ('1', 3, 3),
        5 => ('2', 4, 4),
        6 => ('3', 5, 5),
        7 => ('4', 6, 6),
        8 => ('5', 7, 7),
        9 => ('6', 8, 8),
        10 => ('7', 9, 9),
        11 => ('8', 10, 10),
        12 => ('9', 11, 11),
        13 => ('A', 0, 3),
        14 => ('B', 0, 4),
        15 => ('C', 0, 5),
        16 => ('D', 0, 6),
        17 => ('E', 0, 7),
        18 => ('F', 0, 8),
        19 => ('G', 0, 9),
        20 => ('H', 0, 10),
        21 => ('I', 0, 11),
        22 => ('J', 1, 3),
        23 => ('K', 1, 4),
        24 => ('L', 1, 5),
        25 => ('M', 1, 6),
        26 => ('N', 1, 7),
        27 => ('O', 1, 8),
        28 => ('P', 1, 9),
        29 => ('Q', 1, 10),
        30 => ('R', 1, 11),
        31 => ('/', 2, 3),
        32 => ('S', 2, 4),
        33 => ('T', 2, 5),
        34 => ('U', 2, 6),
        35 => ('V', 2, 7),
        36 => ('W', 2, 8),
        37 => ('X', 2, 9),
        38 => ('Y', 2, 10),
        _ => ('Z', 2, 11),
    }
}

/// The column with holes at positions `a` and `b` (none from a
/// coordinate of 12).
fn make_col(a: usize, b: usize) -> (r: Column)
    ensures
        r@ == punch_col(a as int, b as int),
        r.wf(),
{
    let mut vals: Vec<i32> = Vec::new();
    let mut i: usize = 0;
    while i < 12
        invariant
            i <= 12,
            vals@.len() == i,
            forall|m: int| 0 <= m < i ==> vals@[m] == punch_col(a as int, b as int)[m],
        decreases 12 - i,
    {
        let v: i32 = if i == a || i == b {
            1
        } else {
            0
        };
        vals.push(v);
        i += 1;
    }
    proof {
        assert(vals@ =~= punch_col(a as int, b as int));
    }
    Column::new(vals)
}

impl Charset {
    /// The built-in default character set: the IBM 029-style codes of
    /// `builtin_map`, rendered with 'O' for a hole and ' ' for no
    /// hole. It is used when no external definition is supplied.
    pub fn builtin() -> (r: Charset)
        ensures
            r.wf(),
            r.on_char() == 'O',
            r.off_char() == ' ',
            r.table() == builtin_map(),
    {
        let mut entries: Vec<(char, Column)> = Vec::new();
        let mut k: usize = 0;
        while k < 40
            invariant
                k <= 40,
                entries@.len() == k,
                forall|m: int|
                    0 <= m < k ==> #[trigger] table_of(entries@)[m] == (
                    builtin_table()[m].0,
                    punch_col(builtin_table()[m].1, builtin_table()[m].2),
                ),
            decreases 40 - k,
        {
            let e = builtin_entry(k);
            let col = make_col(e.1, e.2);
            let ghost prev = entries@;
            entries.push((e.0, col));
            proof {
                assert forall|m: int|
                    0 <= m < k + 1 implies #[trigger] table_of(entries@)[m] == (
                    builtin_table()[m].0,
                    punch_col(builtin_table()[m].1, builtin_table()[m].2),
                ) by {
                    if m < k {
                        assert(entries@[m] == prev[m]);
                        assert(table_of(prev)[m] == (
                            builtin_table()[m].0,
                            punch_col(builtin_table()[m].1, builtin_table()[m].2),
                        ));
                    } else {
                        assert(entries@[m] == (e.0, col));
                        assert(e.0 == builtin_table()[m].0);
                        assert(e.1 as int == builtin_table()[m].1);
                        assert(e.2 as int == builtin_table()[m].2);
                    }
                }
            }
            k += 1;
        }
        let cs = Charset { on_char: 'O', off_char: ' ', entries };
        proof {
            assert(cs.table() =~= builtin_map());
            assert forall|i: int| 0 <= i < cs.table().len() implies (
            #[trigger] cs.table()[i]).1.len() == 12 by {
                assert(cs.table()[i].1 == punch_col(builtin_table()[i].1, builtin_table()[i].2));
            }
        }
        cs
    }
}

/// Two punch-coordinate pairs in canonical form (coordinates ordered,
/// with 12 used only in the all-blank pair) give distinct columns.
proof fn lemma_punch_col_distinct(a1: int, b1: int, a2: int, b2: int)
    requires
        0 <= a1 <= b1 <= 12,
        0 <= a2 <= b2 <= 12,
        b1 == 12 ==> a1 == 12,
        b2 == 12 ==> a2 == 12,
        !(a1 == a2 && b1 == b2),
    ensures
        punch_col(a1, b1) != punch_col(a2, b2),
{
    let c1 = punch_col(a1, b1);
    let c2 = punch_col(a2, b2);
    if a1 != a2 {
        if a1 < a2 {
            assert(c1[a1] == 1 && c2[a1] == 0);
        } else {
            assert(c2[a2] == 1 && c1[a2] == 0);
        }
    } else {
        if b1 < b2 {
            assert(c2[b2] == 1 && c1[b2] == 0);
        } else {
            assert(c1[b1] == 1 && c2[b1] == 0);
        }
    }
}

/// The built-in default mapping is injective, so decoding inverts
/// encoding for every character it supports.
pub proof fn lemma_builtin_injective()
    ensures
        injective(builtin_map()),
{
    let t = builtin_map();
    let bt = builtin_table();
    assert forall|i: int, j: int| 0 <= i < j < t.len() implies (#[trigger] t[i]).0 != (
    #[trigger] t[j]).0 && t[i].1 != t[j].1 by {
        assert(bt[i].0 != bt[j].0);
        assert(!(bt[i].1 == bt[j].1 && bt[i].2 == bt[j].2));
        assert(0 <= bt[i].1 <= bt[i].2 <= 12 && (bt[i].2 == 12 ==> bt[i].1 == 12));
        assert(0 <= bt[j].1 <= bt[j].2 <= 12 && (bt[j].2 == 12 ==> bt[j].1 == 12));
        lemma_punch_col_distinct(bt[i].1, bt[i].2, bt[j].1, bt[j].2);
    }
}

/// If the first entry for `c` sits at index `k`, the lookup returns
/// that entry's column.
proof fn lemma_lookup_char_found(table: Table, c: char, k: int)
    requires
        0 <= k < table.len(),
        table[k].0 == c,
        forall|m: int| 0 <= m < k ==> (#[trigger] table[m]).0 != c,
    ensures
        lookup_char(table, c) == Some(table[k].1),
    decreases k,
{
    if k > 0 {
        lemma_lookup_char_found(table.drop_first(), c, k - 1);
    }
}

/// If no entry is for `c`, the lookup fails.
proof fn lemma_lookup_char_none(table: Table, c: char)
    requires
        forall|m: int| 0 <= m < table.len() ==> (#[trigger] table[m]).0 != c,
    ensures
        lookup_char(table, c) is None,
    decreases table.len(),
{
    if table.len() > 0 {
        lemma_lookup_char_none(table.drop_first(), c);
    }
}

/// If the first entry with column `v` sits at index `k`, the lookup
/// returns that entry's character.
proof fn lemma_lookup_col_found(table: Table, v: Seq<i32>, k: int)
    requires
        0 <= k < table.len(),
        table[k].1 == v,
        forall|m: int| 0 <= m < k ==> (#[trigger] table[m]).1 != v,
    ensures
        lookup_col(table, v) == Some(table[k].0),
    decreases k,
{
    if k > 0 {
        lemma_lookup_col_found(table.drop_first(), v, k - 1);
    }
}

/// If no entry has column `v`, the lookup fails.
proof fn lemma_lookup_col_none(table: Table, v: Seq<i32>)
    requires
        forall|m: int| 0 <= m < table.len() ==> (#[trigger] table[m]).1 != v,
    ensures
        lookup_col(table, v) is None,
    decreases table.len(),
{
    if table.len() > 0 {
        lemma_lookup_col_none(table.drop_first(), v);
    }
}

/// A successful char lookup returns the column of some entry for `c`.
proof fn lemma_lookup_char_is_entry(table: Table, c: char)
    requires
        supports(table, c),
    ensures
        exists|k: int|
            0 <= k < table.len() && (#[trigger] table[k]).0 == c && table[k].1 == col_of(table, c),
    decreases table.len(),
{
    if table[0].0 == c {
        assert(table[0].0 == c && table[0].1 == col_of(table, c));
    } else {
        let rest = table.drop_first();
        lemma_lookup_char_is_entry(rest, c);
        let k = choose|k: int|
            0 <= k < rest.len() && (#[trigger] rest[k]).0 == c && rest[k].1 == col_of(rest, c);
        assert(table[k + 1].0 == c && table[k + 1].1 == col_of(table, c));
    }
}

/// Law: decoding inverts encoding. For every character set whose table
/// is injective and every character `c` it supports, looking up the
/// column that `c` encodes to yields `c` back.
pub proof fn lemma_decode_inverts_encode(table: Table, c: char)
    requires
        injective(table),
        supports(table, c),
    ensures
        lookup_col(table, col_of(table, c)) == Some(c),
    decreases table.len(),
{
    if table[0].0 == c {
        assert(lookup_char(table, c) == Some(table[0].1));
    } else {
        let rest = table.drop_first();
        assert forall|i: int, j: int| 0 <= i < j < rest.len() implies (#[trigger] rest[i]).0 != (
        #[trigger] rest[j]).0 && rest[i].1 != rest[j].1 by {
            assert(table[i + 1] == rest[i]);
            assert(table[j + 1] == rest[j]);
        }
        lemma_decode_inverts_encode(rest, c);
        lemma_lookup_char_is_entry(rest, c);
        let k = choose|k: int|
            0 <= k < rest.len() && (#[trigger] rest[k]).0 == c && rest[k].1 == col_of(rest, c);
        assert(table[k + 1].1 == col_of(rest, c));
        assert(table[0].1 != col_of(rest, c));
        assert(col_of(table, c) == col_of(rest, c));
    }
}

} // verus!
