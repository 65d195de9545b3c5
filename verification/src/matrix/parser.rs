//! Reading matrices from and writing them back to the bracketed grid form
//! `{{a, b, c}, {d, e, f}}`.

use vstd::prelude::*;
use vstd::string::StringSliceAdditionalSpecFns;

use crate::matrix::generic::Matrix;
use crate::matrix::square::SquareMatrix;
use crate::matrix::MatrixError;
use crate::result::MathError;
use crate::structures::{Ring, StructureError};
use crate::traits::{copy_bytes, Parseable, Serializable};

verus! {

/// Whether a byte is ASCII whitespace.
pub open spec fn is_ws_b(c: u8) -> bool {
    c == 32 || c == 9 || c == 10 || c == 13
}

/// The byte sequence with all whitespace removed.
pub open spec fn strip_ws_s(s: Seq<u8>) -> Seq<u8>
    decreases s.len(),
{
    if s.len() == 0 {
        Seq::empty()
    } else if is_ws_b(s.last()) {
        strip_ws_s(s.drop_last())
    } else {
        strip_ws_s(s.drop_last()) + seq![s.last()]
    }
}

/// The byte sequence with every leading opening brace removed.
pub open spec fn trim_open_s(s: Seq<u8>) -> Seq<u8>
    decreases s.len(),
{
    if s.len() > 0 && s[0] == 123 {
        trim_open_s(s.drop_first())
    } else {
        s
    }
}

/// The byte sequence with every trailing closing brace removed.
pub open spec fn trim_close_s(s: Seq<u8>) -> Seq<u8>
    decreases s.len(),
{
    if s.len() > 0 && s.last() == 125 {
        trim_close_s(s.drop_last())
    } else {
        s
    }
}

/// The first position at or after `i` where the pattern occurs, if any.
pub open spec fn find_sub_s(s: Seq<u8>, pat: Seq<u8>, i: nat) -> Option<int>
    decreases s.len() - i,
{
    if pat.len() == 0 || i + pat.len() > s.len() {
        None
    } else if s.subrange(i as int, (i + pat.len()) as int) == pat {
        Some(i as int)
    } else {
        find_sub_s(s, pat, i + 1)
    }
}

/// The pieces of a byte sequence around the non-overlapping occurrences of
/// a separator pattern, scanned from the left.
pub open spec fn split_s(s: Seq<u8>, pat: Seq<u8>) -> Seq<Seq<u8>>
    decreases s.len(),
    when true via split_s_decreases
{
    if pat.len() == 0 {
        seq![s]
    } else {
        match find_sub_s(s, pat, 0) {
            None => seq![s],
            Some(i) => seq![s.take(i)] + split_s(s.skip(i + pat.len()), pat),
        }
    }
}

#[via_fn]
proof fn split_s_decreases(s: Seq<u8>, pat: Seq<u8>) {
    if pat.len() > 0 {
        if let Some(i) = find_sub_s(s, pat, 0) {
            lemma_find_sub_bounds(s, pat, 0);
        }
    }
}

/// A found pattern position lies at or after the search start and leaves
/// room for the whole pattern.
proof fn lemma_find_sub_bounds(s: Seq<u8>, pat: Seq<u8>, i: nat)
    ensures
        find_sub_s(s, pat, i) matches Some(j) ==> i <= j && j + pat.len() <= s.len(),
    decreases s.len() - i,
{
    if pat.len() == 0 || i + pat.len() > s.len() {
    } else if s.subrange(i as int, (i + pat.len()) as int) == pat {
    } else {
        lemma_find_sub_bounds(s, pat, i + 1);
    }
}

/// The separator between serialized rows, once whitespace is gone.
pub open spec fn row_sep_s() -> Seq<u8> {
    seq![125u8, 44u8, 123u8]
}

/// The scalars denoted by a sequence of element tokens, or nothing when
/// any token is not a valid scalar.
pub open spec fn parse_tokens_s<R: Parseable>(tokens: Seq<Seq<u8>>) -> Option<Seq<R>>
    decreases tokens.len(),
{
    if tokens.len() == 0 {
        Some(Seq::empty())
    } else {
        match (parse_tokens_s::<R>(tokens.drop_last()), R::parse_elem_s(tokens.last())) {
            (Some(v), Some(e)) => Some(v.push(e)),
            _ => None,
        }
    }
}

/// The rows denoted by a sequence of row tokens, each split at commas, or
/// nothing when any element fails to parse.
pub open spec fn parse_row_tokens_s<R: Parseable>(rows: Seq<Seq<u8>>) -> Option<Seq<Seq<R>>>
    decreases rows.len(),
{
    if rows.len() == 0 {
        Some(Seq::empty())
    } else {
        match (
            parse_row_tokens_s::<R>(rows.drop_last()),
            parse_tokens_s::<R>(split_s(rows.last(), seq![44u8])),
        ) {
            (Some(v), Some(row)) => Some(v.push(row)),
            _ => None,
        }
    }
}

/// The grid denoted by the textual form of a matrix: whitespace removed,
/// outer braces trimmed, rows split on `},{` and elements on commas.
pub open spec fn parse_grid_s<R: Parseable>(s: Seq<u8>) -> Option<Seq<Seq<R>>> {
    parse_row_tokens_s::<R>(split_s(trim_close_s(trim_open_s(strip_ws_s(s))), row_sep_s()))
}

/// Whether some row of a grid has a length other than the expected one:
/// the number of rows for a square grid, the first row's length for a
/// rectangular one.
pub open spec fn some_row_differs<R>(g: Seq<Seq<R>>, square: bool) -> bool {
    exists|i: int|
        0 <= i < g.len() && (#[trigger] g[i]).len() != (if square {
            g.len()
        } else {
            g[0].len()
        })
}

/// Removes every whitespace byte.
fn strip_ws(s: &[u8]) -> (r: Vec<u8>)
    ensures
        r@ == strip_ws_s(s@),
{
    let len = s.len();
    let mut out: Vec<u8> = Vec::new();
    let mut i: usize = 0;
    while i < len
        invariant
            len == s@.len(),
            i <= len,
            out@ == strip_ws_s(s@.take(i as int)),
        decreases len - i,
    {
        let c = s[i];
        proof {
            assert(s@.take(i + 1).drop_last() =~= s@.take(i as int));
            assert(s@.take(i + 1).last() == c);
        }
        if !(c == 32 || c == 9 || c == 10 || c == 13) {
            out.push(c);
        }
        i += 1;
    }
    proof {
        assert(s@.take(len as int) =~= s@);
    }
    out
}

/// Removes every leading opening brace and trailing closing brace.
#[verifier::rlimit(60)]
fn trim_braces(s: &[u8]) -> (r: Vec<u8>)
    ensures
        r@ == trim_close_s(trim_open_s(s@)),
{
    let len = s.len();
    proof {
        assert(s@.skip(0) =~= s@);
    }
    let mut start: usize = 0;
    while start < len && s[start] == 123
        invariant
            len == s@.len(),
            start <= len,
            trim_open_s(s@) == trim_open_s(s@.skip(start as int)),
        decreases len - start,
    {
        proof {
            assert(s@.skip(start as int).drop_first() =~= s@.skip(start + 1));
        }
        start += 1;
    }
    proof {
        assert(trim_open_s(s@) == s@.skip(start as int));
    }
    proof {
        assert(s@.skip(start as int).take(len - start) =~= s@.skip(start as int));
    }
    let mut end: usize = len;
    while end > start && s[end - 1] == 125
        invariant
            len == s@.len(),
            start <= end <= len,
            trim_open_s(s@) == s@.skip(start as int),
            trim_close_s(s@.skip(start as int)) == trim_close_s(
                s@.skip(start as int).take(end - start),
            ),
        decreases end,
    {
        proof {
            let cur = s@.skip(start as int).take(end - start);
            assert(cur.last() == s@[end - 1]);
            assert(cur.drop_last() =~= s@.skip(start as int).take(end - 1 - start));
        }
        end -= 1;
    }
    proof {
        let cur = s@.skip(start as int).take(end - start);
        if end > start {
            assert(cur.last() == s@[end - 1]);
        }
        assert(trim_close_s(s@.skip(start as int)) == cur);
        assert(cur =~= s@.subrange(start as int, end as int));
    }
    copy_bytes(s, start, end)
}

/// Whether the pattern occurs at the given position.
fn match_at(s: &[u8], pat: &[u8], i: usize) -> (r: bool)
    requires
        i + pat@.len() <= s@.len(),
    ensures
        r == (s@.subrange(i as int, i + pat@.len()) == pat@),
{
    let plen = pat.len();
    let slen = s.len();
    let mut k: usize = 0;
    while k < plen
        invariant
            plen == pat@.len(),
            slen == s@.len(),
            i + plen <= slen,
            k <= plen,
            forall|t: int| 0 <= t < k ==> s@[i + t] == pat@[t],
        decreases plen - k,
    {
        if s[i + k] != pat[k] {
            proof {
                assert(s@.subrange(i as int, i + plen)[k as int] != pat@[k as int]);
            }
            return false;
        }
        k += 1;
    }
    proof {
        assert(s@.subrange(i as int, i + plen) =~= pat@);
    }
    true
}

/// Splits a byte sequence around the occurrences of a separator pattern.
fn split_bytes(s: &[u8], pat: &[u8]) -> (r: Vec<Vec<u8>>)
    requires
        pat@.len() > 0,
    ensures
        r@.map_values(|v: Vec<u8>| v@) == split_s(s@, pat@),
{
    let len = s.len();
    let plen = pat.len();
    let mut out: Vec<Vec<u8>> = Vec::new();
    proof {
        assert(s@.skip(0) =~= s@);
        assert(out@.map_values(|v: Vec<u8>| v@) + split_s(s@, pat@) =~= split_s(s@, pat@));
    }
    let mut seg_start: usize = 0;
    let mut i: usize = 0;
    while plen <= len && i <= len - plen
        invariant
            len == s@.len(),
            plen == pat@.len(),
            plen > 0,
            seg_start <= i <= len,
            split_s(s@, pat@) == out@.map_values(|v: Vec<u8>| v@) + split_s(
                s@.skip(seg_start as int),
                pat@,
            ),
            find_sub_s(s@.skip(seg_start as int), pat@, 0) == find_sub_s(
                s@.skip(seg_start as int),
                pat@,
                (i - seg_start) as nat,
            ),
        decreases len - i,
    {
        if match_at(s, pat, i) {
            let piece = copy_bytes(s, seg_start, i);
            proof {
                let tail = s@.skip(seg_start as int);
                let k = i - seg_start;
                assert(tail.subrange(k, k + plen) =~= s@.subrange(i as int, i + plen));
                assert(find_sub_s(tail, pat@, k as nat) == Some(k));
                assert(tail.take(k) =~= s@.subrange(seg_start as int, i as int));
                assert(tail.skip(k + plen) =~= s@.skip(i + plen));
                assert(split_s(tail, pat@) == seq![tail.take(k)] + split_s(
                    s@.skip(i + plen),
                    pat@,
                ));
            }
            out.push(piece);
            proof {
                assert(out@.map_values(|v: Vec<u8>| v@) =~= out@.map_values(
                    |v: Vec<u8>| v@,
                ).drop_last().push(s@.subrange(seg_start as int, i as int)));
            }
            seg_start = i + plen;
            i = seg_start;
        } else {
            proof {
                let tail = s@.skip(seg_start as int);
                let k = i - seg_start;
                assert(tail.subrange(k, k + plen) =~= s@.subrange(i as int, i + plen));
                assert(find_sub_s(tail, pat@, k as nat) == find_sub_s(tail, pat@, (k + 1) as nat));
            }
            i += 1;
        }
    }
    let last = copy_bytes(s, seg_start, len);
    proof {
        let tail = s@.skip(seg_start as int);
        let k = i - seg_start;
        assert(find_sub_s(tail, pat@, k as nat) is None);
        assert(split_s(tail, pat@) == seq![tail]);
        assert(tail =~= s@.subrange(seg_start as int, len as int));
    }
    out.push(last);
    proof {
        assert(out@.map_values(|v: Vec<u8>| v@) =~= split_s(s@, pat@));
    }
    out
}

/// Parses every element token of every row token.
fn parse_cells<R: Ring + Parseable>(row_tokens: Vec<Vec<u8>>) -> (r: Result<
    Vec<Vec<R>>,
    StructureError,
>)
    ensures
        match r {
            Ok(cells) => parse_row_tokens_s::<R>(
                row_tokens@.map_values(|v: Vec<u8>| v@),
            ) == Some(cells@.map_values(|v: Vec<R>| v@)),
            Err(_) => parse_row_tokens_s::<R>(row_tokens@.map_values(|v: Vec<u8>| v@)) is None,
        },
{
    let ghost tokens = row_tokens@.map_values(|v: Vec<u8>| v@);
    let mut cells: Vec<Vec<R>> = Vec::new();
    let mut i: usize = 0;
    while i < row_tokens.len()
        invariant
            tokens == row_tokens@.map_values(|v: Vec<u8>| v@),
            i <= row_tokens@.len(),
            parse_row_tokens_s::<R>(tokens.take(i as int)) == Some(
                cells@.map_values(|v: Vec<R>| v@),
            ),
        decreases row_tokens@.len() - i,
    {
        let comma: [u8; 1] = [44u8];
        let elems = split_bytes(row_tokens[i].as_slice(), &comma);
        let ghost elem_tokens = elems@.map_values(|v: Vec<u8>| v@);
        proof {
            assert(comma@ =~= seq![44u8]);
            assert(elem_tokens == split_s(tokens[i as int], seq![44u8]));
        }
        let mut row: Vec<R> = Vec::new();
        let mut j: usize = 0;
        while j < elems.len()
            invariant
                tokens == row_tokens@.map_values(|v: Vec<u8>| v@),
                i < row_tokens@.len(),
                elem_tokens == elems@.map_values(|v: Vec<u8>| v@),
                elem_tokens == split_s(tokens[i as int], seq![44u8]),
                j <= elems@.len(),
                parse_tokens_s::<R>(elem_tokens.take(j as int)) == Some(row@),
            decreases elems@.len() - j,
        {
            proof {
                assert(elem_tokens.take(j + 1).drop_last() =~= elem_tokens.take(j as int));
                assert(elem_tokens.take(j + 1).last() == elems@[j as int]@);
            }
            match R::parse_elem(elems[j].as_slice()) {
                Ok(e) => {
                    row.push(e);
                },
                Err(err) => {
                    proof {
                        lemma_parse_tokens_failure::<R>(elem_tokens, j as int);
                        lemma_parse_row_tokens_failure::<R>(tokens, i as int);
                        assert(split_s(tokens[i as int], seq![44u8]) == elem_tokens);
                    }
                    return Err(err);
                },
            }
            j += 1;
        }
        proof {
            assert(elem_tokens.take(elems@.len() as int) =~= elem_tokens);
            assert(tokens.take(i + 1).drop_last() =~= tokens.take(i as int));
            assert(tokens.take(i + 1).last() == tokens[i as int]);
            assert(split_s(tokens[i as int], seq![44u8]) == elem_tokens);
        }
        cells.push(row);
        proof {
            assert(cells@.map_values(|v: Vec<R>| v@) =~= cells@.map_values(
                |v: Vec<R>| v@,
            ).drop_last().push(row@));
        }
        i += 1;
    }
    proof {
        assert(tokens.take(row_tokens@.len() as int) =~= tokens);
    }
    Ok(cells)
}

/// A failing element token makes the whole row sequence fail.
proof fn lemma_parse_tokens_failure<R: Parseable>(tokens: Seq<Seq<u8>>, j: int)
    requires
        0 <= j < tokens.len(),
        R::parse_elem_s(tokens[j]) is None,
    ensures
        parse_tokens_s::<R>(tokens) is None,
    decreases tokens.len(),
{
    if tokens.len() > 0 {
        if j == tokens.len() - 1 {
        } else {
            lemma_parse_tokens_failure::<R>(tokens.drop_last(), j);
        }
    }
}

/// A failing row token makes the whole grid fail.
proof fn lemma_parse_row_tokens_failure<R: Parseable>(rows: Seq<Seq<u8>>, i: int)
    requires
        0 <= i < rows.len(),
        parse_tokens_s::<R>(split_s(rows[i], seq![44u8])) is None,
    ensures
        parse_row_tokens_s::<R>(rows) is None,
    decreases rows.len(),
{
    if rows.len() > 0 {
        if i == rows.len() - 1 {
        } else {
            lemma_parse_row_tokens_failure::<R>(rows.drop_last(), i);
        }
    }
}

/// Reads the nested rows of a matrix from its textual form.
fn parse_rows<R: Ring + Parseable>(input: &str) -> (r: Result<Vec<Vec<R>>, StructureError>)
    ensures
        match r {
            Ok(cells) => parse_grid_s::<R>(input.spec_bytes()) == Some(
                cells@.map_values(|v: Vec<R>| v@),
            ),
            Err(_) => parse_grid_s::<R>(input.spec_bytes()) is None,
        },
{
    let bytes = input.as_bytes();
    let cleaned = strip_ws(bytes);
    let trimmed = trim_braces(cleaned.as_slice());
    let sep: [u8; 3] = [125u8, 44u8, 123u8];
    let row_tokens = split_bytes(trimmed.as_slice(), &sep);
    proof {
        assert(sep@ =~= row_sep_s());
    }
    parse_cells::<R>(row_tokens)
}

impl<R: Ring + Parseable> SquareMatrix<R> {
    /// Reads a square matrix from the textual form `{{a,b},{c,d}}`.
    ///
    /// ## Errors
    /// Returns [`MatrixError::MatrixError`] when some element cannot be
    /// parsed, and [`MatrixError::NonSquareMatrix`] when the rows read do
    /// not form a square grid.
    #[verifier::rlimit(60)]
    pub fn parse(input: &str) -> (r: Result<Self, MatrixError>)
        ensures
            r matches Ok(m) ==> m.wf() && parse_grid_s::<R>(input.spec_bytes()) == Some(m@),
            r is Err && parse_grid_s::<R>(input.spec_bytes()) is None ==> (match r->Err_0 {
                MatrixError::MatrixError(msg) => msg@
                    == "Could not parse matrix due to parsing error"@,
                _ => false,
            }),
            (r is Err && parse_grid_s::<R>(input.spec_bytes()) is Some) ==> r->Err_0
                == MatrixError::NonSquareMatrix && some_row_differs(
                parse_grid_s::<R>(input.spec_bytes())->Some_0,
                true,
            ),
    {
        broadcast use vstd::string::to_string_from_display_ensures_for_str;

        match parse_rows::<R>(input) {
            Ok(cells) => {
                let ghost g = cells@.map_values(|v: Vec<R>| v@);
                let res = Self::try_from(cells);
                proof {
                    if let Err(_) = res {
                        let i = choose|i: int|
                            0 <= i < g.len() && #[trigger] (cells@[i])@.len() != g.len();
                        assert(g[i].len() != g.len());
                    }
                }
                res
            },
            Err(_) => Err(
                MatrixError::MatrixError("Could not parse matrix due to parsing error".to_string()),
            ),
        }
    }
}

impl<R: Ring + Parseable> Matrix<R> {
    /// Reads a rectangular matrix from the textual form `{{a,b},{c,d}}`.
    ///
    /// ## Errors
    /// Returns [`MatrixError::MatrixError`] when some element cannot be
    /// parsed, and [`MatrixError::InvalidNumberOfColumns`] when the rows
    /// read have unequal lengths.
    #[verifier::rlimit(60)]
    pub fn parse(input: &str) -> (r: Result<Self, MatrixError>)
        ensures
            r matches Ok(m) ==> m.wf() && parse_grid_s::<R>(input.spec_bytes()) == Some(m@),
            r is Err && parse_grid_s::<R>(input.spec_bytes()) is None ==> (match r->Err_0 {
                MatrixError::MatrixError(msg) => msg@
                    == "Could not parse matrix due to parsing error"@,
                _ => false,
            }),
            (r is Err && parse_grid_s::<R>(input.spec_bytes()) is Some) ==> r->Err_0
                == MatrixError::InvalidNumberOfColumns && some_row_differs(
                parse_grid_s::<R>(input.spec_bytes())->Some_0,
                false,
            ),
    {
        broadcast use vstd::string::to_string_from_display_ensures_for_str;

        match parse_rows::<R>(input) {
            Ok(cells) => {
                let ghost g = cells@.map_values(|v: Vec<R>| v@);
                let res = Self::try_from(cells);
                proof {
                    if let Err(_) = res {
                        let i = choose|i: int|
                            0 <= i < g.len() && #[trigger] (cells@[i])@.len() != (cells@[0])@.len();
                        assert(g[i].len() != g[0].len());
                    }
                }
                res
            },
            Err(_) => Err(
                MatrixError::MatrixError("Could not parse matrix due to parsing error".to_string()),
            ),
        }
    }
}

/// Creates a rectangular matrix from the textual grid form.
///
/// ## Errors
/// Returns [`MathError::MatrixError`] when some element cannot be parsed
/// or the rows read have unequal lengths.
pub fn parse_matrix<R: Ring + Parseable>(input: &str) -> (r: Result<Matrix<R>, MathError>)
    ensures
        r matches Ok(m) ==> m.wf() && parse_grid_s::<R>(input.spec_bytes()) == Some(m@),
        r is Err ==> (match r->Err_0 {
            MathError::MatrixError(msg) => msg@ == "Could not parse matrix due to parsing error"@,
            _ => false,
        }),
        (r is Err && parse_grid_s::<R>(input.spec_bytes()) is Some) ==> some_row_differs(
            parse_grid_s::<R>(input.spec_bytes())->Some_0,
            false,
        ),
{
    broadcast use vstd::string::to_string_from_display_ensures_for_str;

    match Matrix::<R>::parse(input) {
        Ok(m) => Ok(m),
        Err(MatrixError::InvalidNumberOfColumns) => Err(
            MathError::MatrixError("Could not parse matrix due to parsing error".to_string()),
        ),
        Err(_) => Err(
            MathError::MatrixError("Could not parse matrix due to parsing error".to_string()),
        ),
    }
}

/// The text of the elements of one row, each but the last followed by a
/// comma and a space.
pub open spec fn serialize_cells_s<R: Parseable>(row: Seq<R>) -> Seq<char>
    decreases row.len(),
{
    if row.len() == 0 {
        Seq::empty()
    } else if row.len() == 1 {
        row[0].serialize_elem_s()
    } else {
        serialize_cells_s(row.drop_last()) + seq![',', ' '] + row.last().serialize_elem_s()
    }
}

/// The text of one row: its elements between braces.
pub open spec fn serialize_row_s<R: Parseable>(row: Seq<R>) -> Seq<char> {
    seq!['{'] + serialize_cells_s(row) + seq!['}']
}

/// The text of the rows of a grid, each but the last followed by a comma
/// and a space.
pub open spec fn serialize_rows_s<R: Parseable>(m: Seq<Seq<R>>) -> Seq<char>
    decreases m.len(),
{
    if m.len() == 0 {
        Seq::empty()
    } else if m.len() == 1 {
        serialize_row_s(m[0])
    } else {
        serialize_rows_s(m.drop_last()) + seq![',', ' '] + serialize_row_s(m.last())
    }
}

/// The text of a whole grid: its rows between braces, in the form
/// `{{a, b, c}, {d, e, f}, {g, h, i}}`.
pub open spec fn serialize_grid_s<R: Parseable>(m: Seq<Seq<R>>) -> Seq<char> {
    seq!['{'] + serialize_rows_s(m) + seq!['}']
}

/// Writes one row of elements between braces.
fn serialize_row<R: Ring + Parseable>(row: &Vec<R>) -> (r: String)
    ensures
        r@ == serialize_row_s(row@),
{
    let mut out = String::new();
    out.append("{");
    proof {
        reveal_strlit("{");
        assert("{"@ =~= seq!['{']);
        assert(row@.take(0) =~= Seq::<R>::empty());
        assert(out@ =~= seq!['{'] + serialize_cells_s(row@.take(0)));
    }
    let mut j: usize = 0;
    while j < row.len()
        invariant
            j <= row@.len(),
            out@ == seq!['{'] + serialize_cells_s(row@.take(j as int)),
        decreases row@.len() - j,
    {
        if j > 0 {
            out.append(", ");
        }
        let piece = row[j].serialize_elem();
        out.append(piece.as_str());
        proof {
            reveal_strlit(", ");
            assert(", "@ =~= seq![',', ' ']);
            assert(row@.take(j + 1).drop_last() =~= row@.take(j as int));
            assert(row@.take(j + 1).last() == row@[j as int]);
            assert(out@ =~= seq!['{'] + serialize_cells_s(row@.take(j + 1)));
        }
        j += 1;
    }
    out.append("}");
    proof {
        reveal_strlit("{");
        reveal_strlit("}");
        assert("{"@ =~= seq!['{']);
        assert("}"@ =~= seq!['}']);
        assert(row@.take(row@.len() as int) =~= row@);
        assert(out@ =~= serialize_row_s(row@));
    }
    out
}

/// Serializes nested rows in the bracketed grid form.
fn serialize_rows<R: Ring + Parseable>(data: &Vec<Vec<R>>) -> (r: String)
    ensures
        r@ == serialize_grid_s(data@.map_values(|v: Vec<R>| v@)),
{
    let ghost m = data@.map_values(|v: Vec<R>| v@);
    let mut out = String::new();
    out.append("{");
    proof {
        reveal_strlit("{");
        assert("{"@ =~= seq!['{']);
        assert(m.take(0) =~= Seq::<Seq<R>>::empty());
        assert(out@ =~= seq!['{'] + serialize_rows_s(m.take(0)));
    }
    let mut i: usize = 0;
    while i < data.len()
        invariant
            m == data@.map_values(|v: Vec<R>| v@),
            i <= data@.len(),
            out@ == seq!['{'] + serialize_rows_s(m.take(i as int)),
        decreases data@.len() - i,
    {
        if i > 0 {
            out.append(", ");
        }
        let piece = serialize_row(&data[i]);
        out.append(piece.as_str());
        proof {
            reveal_strlit(", ");
            assert(", "@ =~= seq![',', ' ']);
            assert(m.take(i + 1).drop_last() =~= m.take(i as int));
            assert(m.take(i + 1).last() == m[i as int]);
            assert(data@[i as int]@ == m[i as int]);
            assert(out@ =~= seq!['{'] + serialize_rows_s(m.take(i + 1)));
        }
        i += 1;
    }
    out.append("}");
    proof {
        reveal_strlit("{");
        reveal_strlit("}");
        assert("{"@ =~= seq!['{']);
        assert("}"@ =~= seq!['}']);
        assert(m.take(m.len() as int) =~= m);
        assert(out@ =~= serialize_grid_s(m));
    }
    out
}

/// Serializes a rectangular matrix, returning it in the form
/// `{{a, b, c}, {d, e, f}, {g, h, i}}`.
pub fn serialize_matrix<R: Ring + Parseable>(matrix: &Matrix<R>) -> (r: String)
    ensures
        r@ == serialize_grid_s(matrix@),
{
    serialize_rows(&matrix.data)
}

impl<R: Ring + Parseable> Serializable for Matrix<R> {
    open spec fn serialize_s(&self) -> Seq<char> {
        serialize_grid_s(self@)
    }

    fn serialize(&self) -> (r: String) {
        serialize_rows(&self.data)
    }
}

impl<R: Ring + Parseable> Serializable for SquareMatrix<R> {
    open spec fn serialize_s(&self) -> Seq<char> {
        serialize_grid_s(self@)
    }

    fn serialize(&self) -> (r: String) {
        serialize_rows(&self.data)
    }
}

} // verus!
