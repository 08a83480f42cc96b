use vstd::prelude::*;

use crate::charset::{
    char_of, col_of, decodes, injective, lemma_decode_inverts_encode, supports, wf_table, Charset,
    Table,
};
use crate::column::Column;
use crate::errors::PunchError;

verus! {

/// The columns that punching `s` appends: one per character, in order.
pub open spec fn cols_of_str(table: Table, s: Seq<char>) -> Seq<Seq<i32>> {
    Seq::new(s.len(), |k: int| col_of(table, s[k]))
}

/// Every character of `s` has an entry in `table`.
pub open spec fn all_supported(table: Table, s: Seq<char>) -> bool {
    forall|k: int| 0 <= k < s.len() ==> supports(table, s[k])
}

/// The index of the first character of `s` without an entry in
/// `table` (`s.len()` when every character is supported).
pub open spec fn first_unsupported(table: Table, s: Seq<char>) -> int
    decreases s.len(),
{
    if s.len() == 0 {
        0
    } else if !supports(table, s[0]) {
        0
    } else {
        1 + first_unsupported(table, s.drop_first())
    }
}

/// Every column of `cols` has an entry in `table`.
pub open spec fn all_decodable(table: Table, cols: Seq<Seq<i32>>) -> bool {
    forall|k: int| 0 <= k < cols.len() ==> decodes(table, cols[k])
}

/// The text read back from `cols`: one character per column, in order.
pub open spec fn text_of_cols(table: Table, cols: Seq<Seq<i32>>) -> Seq<char> {
    Seq::new(cols.len(), |k: int| char_of(table, cols[k]))
}

/// A punch card: the ordered columns produced by punching text against
/// one character set. The card owns its character set; it starts empty
/// and grows only by appending columns, one per punched character.
#[derive(Debug)]
pub struct Card {
    charset: Charset,
    columns: Vec<Column>,
}

impl Card {
    /// The table of the character set the card was punched with.
    pub closed spec fn table(&self) -> Table {
        self.charset.table()
    }

    pub closed spec fn on_char(&self) -> char {
        self.charset.on_char()
    }

    pub closed spec fn off_char(&self) -> char {
        self.charset.off_char()
    }

    /// The punched columns, in punch order.
    pub closed spec fn cols(&self) -> Seq<Seq<i32>> {
        Seq::new(self.columns@.len(), |k: int| self.columns@[k]@)
    }

    pub open spec fn wf(&self) -> bool {
        wf_table(self.table()) && forall|k: int| 0 <= k < self.cols().len() ==> (
        #[trigger] self.cols()[k]).len() == 12
    }

    /// A fresh, empty card bound to `charset`.
    pub fn with_charset(charset: Charset) -> (r: Card)
        requires
            charset.wf(),
        ensures
            r.wf(),
            r.table() == charset.table(),
            r.on_char() == charset.on_char(),
            r.off_char() == charset.off_char(),
            r.cols() == Seq::<Seq<i32>>::empty(),
    {
        let r = Card { charset, columns: Vec::new() };
        proof {
            assert(r.cols() =~= Seq::<Seq<i32>>::empty());
        }
        r
    }

    /// Appends the column that `c` encodes to. On an unsupported
    /// character the punch fails and the card is left exactly as it
    /// was.
    pub fn punch_char(&mut self, c: char) -> (r: Result<(), PunchError>)
        requires
            old(self).wf(),
        ensures
            final(self).wf(),
            final(self).table() == old(self).table(),
            final(self).on_char() == old(self).on_char(),
            final(self).off_char() == old(self).off_char(),
            match r {
                Ok(_) => supports(old(self).table(), c) && final(self).cols() == old(
                    self,
                ).cols().push(col_of(old(self).table(), c)),
                Err(e) => !supports(old(self).table(), c) && e
                    == PunchError::UnsupportedCharacter(c) && final(self).cols() == old(
                    self,
                ).cols(),
            },
    {
        match self.charset.encode(c) {
            Ok(col) => {
                self.columns.push(col);
                proof {
                    assert(self.cols() =~= old(self).cols().push(col_of(old(self).table(), c)));
                }
                Ok(())
            },
            Err(e) => Err(e),
        }
    }

    /// Punches every character of `s`, left to right, exactly as
    /// repeated single-character punches would. The punch stops at the
    /// first unsupported character; the columns punched before the
    /// failure stay on the card.
    pub fn punch_str(&mut self, s: &str) -> (r: Result<(), PunchError>)
        requires
            old(self).wf(),
        ensures
            final(self).wf(),
            final(self).table() == old(self).table(),
            final(self).on_char() == old(self).on_char(),
            final(self).off_char() == old(self).off_char(),
            match r {
                Ok(_) => all_supported(old(self).table(), s@) && final(self).cols() == old(
                    self,
                ).cols() + cols_of_str(old(self).table(), s@),
                Err(e) => !all_supported(old(self).table(), s@) && e
                    == PunchError::UnsupportedCharacter(
                    s@[first_unsupported(old(self).table(), s@)],
                ) && final(self).cols() == old(self).cols() + cols_of_str(
                    old(self).table(),
                    s@.take(first_unsupported(old(self).table(), s@)),
                ),
            },
    {
        let ghost t = old(self).table();
        let n = s.unicode_len();
        let mut i: usize = 0;
        while i < n
            invariant
                i <= n,
                n == s@.len(),
                self.wf(),
                self.table() == t,
                t == old(self).table(),
                self.on_char() == old(self).on_char(),
                self.off_char() == old(self).off_char(),
                all_supported(t, s@.take(i as int)),
                self.cols() == old(self).cols() + cols_of_str(t, s@.take(i as int)),
            decreases n - i,
        {
            let c = s.get_char(i);
            let ghost before = self.cols();
            match self.punch_char(c) {
                Ok(_) => {},
                Err(e) => {
                    proof {
                        assert forall|m: int| 0 <= m < i implies supports(
                            t,
                            #[trigger] s@[m],
                        ) by {
                            assert(s@.take(i as int)[m] == s@[m]);
                        }
                        lemma_first_unsupported_at(t, s@, i as int);
                    }
                    return Err(e);
                },
            }
            proof {
                assert(self.cols() =~= old(self).cols() + cols_of_str(t, s@.take(i + 1)));
                assert forall|k: int| 0 <= k < i + 1 implies supports(
                    t,
                    #[trigger] s@.take(i + 1)[k],
                ) by {
                    if k < i {
                        assert(s@.take(i as int)[k] == s@.take(i + 1)[k]);
                    }
                }
            }
            i += 1;
        }
        proof {
            assert(s@.take(n as int) =~= s@);
        }
        Ok(())
    }

    /// Decodes every column in punch order and concatenates the
    /// characters: the text the card was punched with, whenever the
    /// character set decodes each column. A column with no entry stops
    /// the read; nothing is skipped or substituted.
    pub fn read(&self) -> (r: Result<String, PunchError>)
        requires
            self.wf(),
        ensures
            match r {
                Ok(text) => all_decodable(self.table(), self.cols()) && text@ == text_of_cols(
                    self.table(),
                    self.cols(),
                ),
                Err(e) => !all_decodable(self.table(), self.cols()) && e
                    == PunchError::UnknownColumn,
            },
    {
        let mut text = String::new();
        let n = self.columns.len();
        let mut k: usize = 0;
        while k < n
            invariant
                k <= n,
                n == self.columns@.len(),
                self.wf(),
                forall|m: int| 0 <= m < k ==> decodes(self.table(), #[trigger] self.cols()[m]),
                text@ == text_of_cols(self.table(), self.cols().take(k as int)),
            decreases n - k,
        {
            match self.charset.decode(&self.columns[k]) {
                Ok(c) => {
                    push_char(&mut text, c);
                    proof {
                        assert(text@ =~= text_of_cols(self.table(), self.cols().take(k + 1)));
                    }
                },
                Err(e) => {
                    proof {
                        assert(!decodes(self.table(), self.cols()[k as int]));
                    }
                    return Err(e);
                },
            }
            k += 1;
        }
        proof {
            assert(self.cols().take(n as int) =~= self.cols());
        }
        Ok(text)
    }

    /// Projects the card into its twelve display rows. Row index 0 is
    /// punch position 12, row index 1 is position 11, and rows 2
    /// through 11 are the digit positions 0 through 9, in that fixed
    /// order. Each row holds one glyph per punched column: the on
    /// glyph where the column's value at that position is nonzero, the
    /// off glyph where it is zero.
    pub fn rows(&self) -> (r: Vec<Vec<char>>)
        requires
            self.wf(),
        ensures
            r@.len() == 12,
            forall|i: int| 0 <= i < 12 ==> (#[trigger] r@[i])@.len() == self.cols().len(),
            forall|i: int, k: int|
                0 <= i < 12 && 0 <= k < self.cols().len() ==> (#[trigger] r@[i]@[k]) == (
                if self.cols()[k][i] == 0 {
                    self.off_char()
                } else {
                    self.on_char()
                }),
    {
        let mut out: Vec<Vec<char>> = Vec::new();
        let mut i: usize = 0;
        while i < 12
            invariant
                i <= 12,
                self.wf(),
                out@.len() == i,
                forall|a: int| 0 <= a < i ==> (#[trigger] out@[a])@.len() == self.cols().len(),
                forall|a: int, k: int|
                    0 <= a < i && 0 <= k < self.cols().len() ==> (#[trigger] out@[a]@[k]) == (
                    if self.cols()[k][a] == 0 {
                        self.off_char()
                    } else {
                        self.on_char()
                    }),
            decreases 12 - i,
        {
            let mut row: Vec<char> = Vec::new();
            let n = self.columns.len();
            let mut k: usize = 0;
            while k < n
                invariant
                    k <= n,
                    i < 12,
                    n == self.columns@.len(),
                    self.wf(),
                    row@.len() == k,
                    forall|m: int|
                        0 <= m < k ==> (#[trigger] row@[m]) == (
                        if self.cols()[m][i as int] == 0 {
                            self.off_char()
                        } else {
                            self.on_char()
                        }),
                decreases n - k,
            {
                proof {
                    assert(self.cols()[k as int].len() == 12);
                    assert(self.cols()[k as int] == self.columns@[k as int]@);
                }
                let v = self.columns[k].get(i);
                let g = if v == 0 {
                    self.charset.off_glyph()
                } else {
                    self.charset.on_glyph()
                };
                row.push(g);
                k += 1;
            }
            out.push(row);
            i += 1;
        }
        out
    }
}

/// Relies on `String::push`: appends the given character to the end of
/// the string.
#[verifier::external_body]
fn push_char(s: &mut String, c: char)
    ensures
        final(s)@ == old(s)@.push(c),
{
    s.push(c);
}

/// If the first `j` characters of `s` are supported and `s[j]` is not,
/// then `j` is the first unsupported index.
proof fn lemma_first_unsupported_at(table: Table, s: Seq<char>, j: int)
    requires
        0 <= j < s.len(),
        forall|m: int| 0 <= m < j ==> supports(table, #[trigger] s[m]),
        !supports(table, s[j]),
    ensures
        first_unsupported(table, s) == j,
    decreases j,
{
    if j > 0 {
        lemma_first_unsupported_at(table, s.drop_first(), j - 1);
    }
}

/// Law: reading inverts punching. For every character set whose table
/// is injective and every string whose characters it all supports, the
/// columns punched for the string decode, in order, back to exactly
/// that string.
pub proof fn lemma_read_inverts_punch(table: Table, s: Seq<char>)
    requires
        injective(table),
        all_supported(table, s),
    ensures
        all_decodable(table, cols_of_str(table, s)),
        text_of_cols(table, cols_of_str(table, s)) == s,
{
    assert forall|k: int| 0 <= k < s.len() implies decodes(
        table,
        #[trigger] cols_of_str(table, s)[k],
    ) && char_of(table, cols_of_str(table, s)[k]) == s[k] by {
        lemma_decode_inverts_encode(table, s[k]);
    }
    assert(text_of_cols(table, cols_of_str(table, s)) =~= s);
}

} // verus!
