//! The textual form of a grid: sixteen whitespace-separated unsigned
//! decimal integers in row-major order.
use crate::position::{packed_cells, CodecError, Position};
use crate::tile::{is_valid_tile, valid_tile};
use vstd::prelude::*;
use vstd::string::StrSliceExecFns;

verus! {

/// A Unicode `White_Space` character: the characters that separate words.
pub open spec fn is_space(c: char) -> bool {
    ('\u{9}' <= c && c <= '\u{d}') || c == ' ' || c == '\u{85}' || c == '\u{a0}' || c
        == '\u{1680}' || ('\u{2000}' <= c && c <= '\u{200a}') || c == '\u{2028}' || c
        == '\u{2029}' || c == '\u{202f}' || c == '\u{205f}' || c == '\u{3000}'
}

/// The maximal runs of non-space characters of `s`, in order.
pub open spec fn split_words(s: Seq<char>) -> Seq<Seq<char>>
    decreases s.len(),
{
    if s.len() == 0 {
        Seq::empty()
    } else {
        let words = split_words(s.drop_last());
        let c = s.last();
        if is_space(c) {
            words
        } else if s.len() > 1 && !is_space(s[s.len() - 2]) {
            words.update(words.len() - 1, words.last().push(c))
        } else {
            words.push(seq![c])
        }
    }
}

/// Every character of `t` is an ASCII decimal digit.
pub open spec fn all_digits(t: Seq<char>) -> bool {
    forall|i: int| 0 <= i < t.len() ==> '0' <= #[trigger] t[i] && t[i] <= '9'
}

/// The number that the decimal digits `t` spell.
pub open spec fn digits_value(t: Seq<char>) -> nat
    decreases t.len(),
{
    if t.len() == 0 {
        0
    } else {
        digits_value(t.drop_last()) * 10 + (t.last() as nat - '0' as nat) as nat
    }
}

/// An unsigned 32-bit decimal: an optional `+`, then one or more digits,
/// whose value fits in `u32`.
pub open spec fn parse_u32(t: Seq<char>) -> Option<u32> {
    let d = if t.len() > 0 && t[0] == '+' {
        t.drop_first()
    } else {
        t
    };
    if d.len() > 0 && all_digits(d) && digits_value(d) <= u32::MAX {
        Some(digits_value(d) as u32)
    } else {
        None
    }
}

/// The tiles of the words `w`, read in order up to the first word that is
/// not a number (`MalformedInput`) or not a valid tile (`InvalidTile`, with
/// the word's index).
pub open spec fn scan_tiles(w: Seq<Seq<char>>) -> Result<Seq<u32>, CodecError>
    decreases w.len(),
{
    if w.len() == 0 {
        Ok(Seq::empty())
    } else {
        match scan_tiles(w.drop_last()) {
            Err(e) => Err(e),
            Ok(vs) => match parse_u32(w.last()) {
                None => Err(CodecError::MalformedInput),
                Some(v) => if valid_tile(v as int) {
                    Ok(vs.push(v))
                } else {
                    Err(CodecError::InvalidTile { index: (w.len() - 1) as usize, value: v })
                },
            },
        }
    }
}

/// The tiles that a text describes, or why it describes no grid: every word
/// must be a valid tile, and there must be exactly sixteen of them.
pub open spec fn text_tiles(s: Seq<char>) -> Result<Seq<u32>, CodecError> {
    match scan_tiles(split_words(s)) {
        Err(e) => Err(e),
        Ok(vs) => if vs.len() == 16 {
            Ok(vs)
        } else {
            Err(CodecError::MalformedInput)
        },
    }
}

/// The character sequences of a list of words.
pub open spec fn words_view(w: Seq<Vec<char>>) -> Seq<Seq<char>> {
    w.map_values(|t: Vec<char>| t@)
}

/// Whether `c` separates words.
fn is_space_char(c: char) -> (r: bool)
    ensures
        r == is_space(c),
{
    ('\u{9}' <= c && c <= '\u{d}') || c == ' ' || c == '\u{85}' || c == '\u{a0}' || c
        == '\u{1680}' || ('\u{2000}' <= c && c <= '\u{200a}') || c == '\u{2028}' || c
        == '\u{2029}' || c == '\u{202f}' || c == '\u{205f}' || c == '\u{3000}'
}

/// Splits `s` into its words.
fn split_text(s: &str) -> (r: Vec<Vec<char>>)
    ensures
        words_view(r@) == split_words(s@),
{
    let n = s.unicode_len();
    let mut words: Vec<Vec<char>> = Vec::new();
    let mut cur: Vec<char> = Vec::new();
    let mut in_word = false;
    let mut i: usize = 0;
    while i < n
        invariant
            n == s@.len(),
            i <= n,
            in_word <==> (i > 0 && !is_space(s@[i - 1])),
            !in_word ==> cur@.len() == 0,
            split_words(s@.take(i as int)) == if in_word {
                words_view(words@).push(cur@)
            } else {
                words_view(words@)
            },
        decreases n - i,
    {
        let c = s.get_char(i);
        assert(s@.take(i + 1).drop_last() =~= s@.take(i as int));
        assert(s@.take(i + 1).last() == c);
        if is_space_char(c) {
            if in_word {
                words.push(cur);
                cur = Vec::new();
                assert(words_view(words@) =~= split_words(s@.take(i as int)));
                in_word = false;
            }
        } else {
            if in_word {
                let ghost before = words_view(words@).push(cur@);
                cur.push(c);
                assert(words_view(words@).push(cur@) =~= before.update(
                    before.len() - 1,
                    before.last().push(c),
                ));
            } else {
                cur.push(c);
                assert(cur@ =~= seq![c]);
                in_word = true;
            }
        }
        i = i + 1;
    }
    if in_word {
        words.push(cur);
    }
    assert(s@.take(n as int) =~= s@);
    assert(words_view(words@) =~= split_words(s@));
    words
}

/// A prefix of a digit string spells no more than the whole string.
proof fn lemma_digits_value_prefix(t: Seq<char>, j: int)
    requires
        0 <= j <= t.len(),
        all_digits(t),
    ensures
        digits_value(t.take(j)) <= digits_value(t),
    decreases t.len(),
{
    if j < t.len() {
        assert(t.drop_last().take(j) =~= t.take(j));
        lemma_digits_value_prefix(t.drop_last(), j);
    } else {
        assert(t.take(j) =~= t);
    }
}

/// A word whose digits, after an optional sign, are not all digits or spell
/// too large a number is no unsigned 32-bit decimal.
proof fn lemma_parse_u32_none(t: Seq<char>, d: Seq<char>)
    requires
        d == (if t.len() > 0 && t[0] == '+' {
            t.drop_first()
        } else {
            t
        }),
        !all_digits(d) || digits_value(d) > u32::MAX,
    ensures
        parse_u32(t) is None,
{
}

/// Reads a word as an unsigned 32-bit decimal.
fn parse_word(t: &Vec<char>) -> (r: Option<u32>)
    ensures
        r == parse_u32(t@),
{
    let n = t.len();
    let start: usize = if n > 0 && t[0] == '+' {
        1
    } else {
        0
    };
    let ghost d = if t@.len() > 0 && t@[0] == '+' {
        t@.drop_first()
    } else {
        t@
    };
    assert(d =~= t@.subrange(start as int, n as int));
    if start == n {
        return None;
    }
    let mut acc: u64 = 0;
    let mut i: usize = start;
    while i < n
        invariant
            start <= i <= n,
            n == t@.len(),
            d == t@.subrange(start as int, n as int),
            d == (if t@.len() > 0 && t@[0] == '+' {
                t@.drop_first()
            } else {
                t@
            }),
            all_digits(d.take(i - start)),
            acc == digits_value(d.take(i - start)),
            acc <= u32::MAX,
        decreases n - i,
    {
        let c = t[i];
        assert(d[i - start] == c);
        assert(d.take(i - start + 1).drop_last() =~= d.take(i - start));
        assert(d.take(i - start + 1).last() == c);
        if !('0' <= c && c <= '9') {
            assert(!all_digits(d)) by {
                assert(!('0' <= d[i - start] && d[i - start] <= '9'));
            }
            proof {
                lemma_parse_u32_none(t@, d);
            }
            return None;
        }
        acc = acc * 10 + (c as u64 - '0' as u64);
        assert(acc == digits_value(d.take(i - start + 1)));
        assert(all_digits(d.take(i - start + 1)));
        if acc > u32::MAX as u64 {
            proof {
                if all_digits(d) {
                    lemma_digits_value_prefix(d, i - start + 1);
                }
                lemma_parse_u32_none(t@, d);
            }
            return None;
        }
        i = i + 1;
    }
    assert(d.take(n - start) =~= d);
    Some(acc as u32)
}

/// Once reading a prefix of the words has failed, reading all of them fails
/// in the same way.
proof fn lemma_scan_tiles_err(w: Seq<Seq<char>>, i: int)
    requires
        0 <= i <= w.len(),
        scan_tiles(w.take(i)) is Err,
    ensures
        scan_tiles(w) == scan_tiles(w.take(i)),
    decreases w.len(),
{
    if i < w.len() {
        assert(w.drop_last().take(i) =~= w.take(i));
        lemma_scan_tiles_err(w.drop_last(), i);
    } else {
        assert(w.take(i) =~= w);
    }
}

impl Position {
    /// Reads a grid from its textual form. `Ok` exactly when the
    /// whitespace-separated words of `s` are sixteen valid tiles, packed in
    /// row-major order. Otherwise, reading word by word: a word that is not
    /// an unsigned 32-bit decimal gives `MalformedInput`, one that is not a
    /// valid tile gives `InvalidTile` with its index, and a count other than
    /// sixteen gives `MalformedInput`.
    pub fn from_string(s: &str) -> (r: Result<Position, CodecError>)
        ensures
            match text_tiles(s@) {
                Ok(vs) => r matches Ok(p) && p@ == packed_cells(vs),
                Err(e) => r == Err::<Position, CodecError>(e),
            },
    {
        let words = split_text(s);
        let ghost w = split_words(s@);
        let mut tiles: Vec<u32> = Vec::new();
        let mut i: usize = 0;
        while i < words.len()
            invariant
                i <= words@.len(),
                words_view(words@) == w,
                w == split_words(s@),
                scan_tiles(w.take(i as int)) == Ok::<Seq<u32>, CodecError>(tiles@),
                forall|j: int| 0 <= j < tiles@.len() ==> valid_tile(#[trigger] tiles@[j] as int),
            decreases words@.len() - i,
        {
            assert(w.take(i + 1).drop_last() =~= w.take(i as int));
            assert(w[i as int] == words@[i as int]@);
            assert(w.take(i + 1).last() == words@[i as int]@);
            match parse_word(&words[i]) {
                None => {
                    proof {
                        assert(scan_tiles(w.take(i + 1)) == Err::<Seq<u32>, CodecError>(
                            CodecError::MalformedInput,
                        ));
                        lemma_scan_tiles_err(w, i + 1);
                    }
                    return Err(CodecError::MalformedInput);
                },
                Some(v) => {
                    if !is_valid_tile(v) {
                        proof {
                            assert(scan_tiles(w.take(i + 1)) == Err::<Seq<u32>, CodecError>(
                                CodecError::InvalidTile { index: i, value: v },
                            ));
                            lemma_scan_tiles_err(w, i + 1);
                        }
                        return Err(CodecError::InvalidTile { index: i, value: v });
                    }
                    tiles.push(v);
                },
            }
            i = i + 1;
        }
        assert(w.take(i as int) =~= w);
        if tiles.len() != 16 {
            return Err(CodecError::MalformedInput);
        }
        let mut p = Position::empty();
        let mut k: usize = 0;
        while k < 16
            invariant
                k <= 16,
                tiles@.len() == 16,
                scan_tiles(w) == Ok::<Seq<u32>, CodecError>(tiles@),
                w == split_words(s@),
                forall|j: int| 0 <= j < 16 ==> valid_tile(#[trigger] tiles@[j] as int),
                forall|j: int| 0 <= j < k ==> #[trigger] p@[j] == packed_cells(tiles@)[j],
            decreases 16 - k,
        {
            p.set_tile(k / 4, k % 4, tiles[k]);
            k = k + 1;
        }
        assert(p@ =~= packed_cells(tiles@));
        Ok(p)
    }
}

} // verus!
