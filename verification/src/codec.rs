//! The plain-text codec for the level format.
//!
//! Grammar: a heights grid of 16 lines, one blank line, then a prefabs grid of
//! 16 lines. A height cell is a single ASCII digit `0`-`9`, or a decimal
//! integer (optionally `-`-prefixed) in parentheses; cells are consumed
//! greedily one at a time, so adjacent terse digits form consecutive cells. A
//! prefab cell is one character from `0npJsH`. Lines are separated by a single
//! line feed; nothing may follow the second grid.
//!
//! The grammar is stated by `spec` functions over byte sequences; the
//! executable parser and serializer are proved to match them exactly.

use vstd::prelude::*;
use vstd::string::StringSliceAdditionalSpecFns;

use crate::model::{Grid, Height, Level, Prefab};

verus! {

pub const NL: u8 = 10;
pub const LPAREN: u8 = 40;
pub const RPAREN: u8 = 41;
pub const MINUS: u8 = 45;

/// Where a parse failed, per the error taxonomy of the format.
#[derive(Debug, Clone, Copy, PartialEq, Eq, Structural)]
pub enum ParseErrorKind {
    /// A height cell that is neither a digit nor a well-formed
    /// parenthesized integer that fits in 8 bits.
    BadHeightToken,
    /// A prefab cell outside the six-character alphabet.
    BadPrefabChar,
    /// A line break missing where a grid expects its next row.
    WrongDimensions,
    /// The blank line between the two grids is missing.
    MissingSeparator,
    /// Input left over after the prefabs grid.
    TrailingInput,
}

/// A structured parse failure carrying the offending input position.
#[derive(Debug, Clone, Copy, PartialEq, Eq, Structural)]
pub struct ParseError {
    pub kind: ParseErrorKind,
    pub pos: usize,
}

pub open spec fn is_ascii_digit(b: u8) -> bool {
    48 <= b <= 57
}

/// Value of a big-endian sequence of ASCII digit bytes.
pub open spec fn dec_val(s: Seq<u8>) -> int
    decreases s.len(),
{
    if s.len() == 0 {
        0
    } else {
        dec_val(s.drop_last()) * 10 + (s.last() - 48)
    }
}

/// Canonical decimal digits of `n`, most significant first.
pub open spec fn dec_digits(n: nat) -> Seq<u8>
    decreases n,
{
    if n < 10 {
        seq![(48 + n) as u8]
    } else {
        dec_digits(n / 10).push((48 + n % 10) as u8)
    }
}

/// End of the run of digit bytes starting at `i`.
pub open spec fn digits_end(s: Seq<u8>, i: int) -> int
    decreases s.len() - i
        when 0 <= i <= s.len()
{
    if i < s.len() && is_ascii_digit(s[i]) {
        digits_end(s, i + 1)
    } else {
        i
    }
}

pub proof fn lemma_digits_end_props(s: Seq<u8>, i: int)
    requires
        0 <= i <= s.len(),
    ensures
        i <= digits_end(s, i) <= s.len(),
        forall|k: int| i <= k < digits_end(s, i) ==> is_ascii_digit(s[k]),
        digits_end(s, i) == s.len() || !is_ascii_digit(s[digits_end(s, i)]),
    decreases s.len() - i,
{
    if i < s.len() && is_ascii_digit(s[i]) {
        lemma_digits_end_props(s, i + 1);
    }
}

/// One height cell at position `i`: a digit, or a parenthesized decimal
/// integer whose value fits in 8 bits. Yields the value and the position
/// just past the cell.
pub open spec fn spec_parse_height_cell(s: Seq<u8>, i: int) -> Result<(i8, int), ParseError>
    recommends
        0 <= i <= s.len(),
{
    if i < s.len() && is_ascii_digit(s[i]) {
        Ok(((s[i] - 48) as i8, i + 1))
    } else if i < s.len() && s[i] == LPAREN {
        let neg = i + 1 < s.len() && s[i + 1] == MINUS;
        let j0 = if neg {
            i + 2
        } else {
            i + 1
        };
        let j = digits_end(s, j0);
        let mag = dec_val(s.subrange(j0, j));
        if j == j0 {
            Err(ParseError { kind: ParseErrorKind::BadHeightToken, pos: i as usize })
        } else if j == s.len() || s[j] != RPAREN {
            Err(ParseError { kind: ParseErrorKind::BadHeightToken, pos: i as usize })
        } else if !neg && mag <= 127 {
            Ok((mag as i8, j + 1))
        } else if neg && mag <= 128 {
            Ok(((-mag) as i8, j + 1))
        } else {
            Err(ParseError { kind: ParseErrorKind::BadHeightToken, pos: i as usize })
        }
    } else {
        Err(ParseError { kind: ParseErrorKind::BadHeightToken, pos: i as usize })
    }
}

/// One prefab cell at position `i`: exactly one character of `0npJsH`.
pub open spec fn spec_parse_prefab_cell(s: Seq<u8>, i: int) -> Result<(Prefab, int), ParseError>
    recommends
        0 <= i <= s.len(),
{
    if i < s.len() && s[i] == 48 {
        Ok((Prefab::Empty, i + 1))
    } else if i < s.len() && s[i] == 110 {
        Ok((Prefab::Melee, i + 1))
    } else if i < s.len() && s[i] == 112 {
        Ok((Prefab::Projectile, i + 1))
    } else if i < s.len() && s[i] == 74 {
        Ok((Prefab::JumpPad, i + 1))
    } else if i < s.len() && s[i] == 115 {
        Ok((Prefab::Stairs, i + 1))
    } else if i < s.len() && s[i] == 72 {
        Ok((Prefab::Hideous, i + 1))
    } else {
        Err(ParseError { kind: ParseErrorKind::BadPrefabChar, pos: i as usize })
    }
}

/// `n` consecutive height cells starting at `i`.
pub open spec fn spec_parse_height_row(s: Seq<u8>, i: int, n: nat) -> Result<
    (Seq<Height>, int),
    ParseError,
>
    decreases n,
{
    if n == 0 {
        Ok((Seq::empty(), i))
    } else {
        match spec_parse_height_cell(s, i) {
            Err(e) => Err(e),
            Ok((v, j)) => match spec_parse_height_row(s, j, (n - 1) as nat) {
                Err(e) => Err(e),
                Ok((vs, k)) => Ok((seq![Height(v)] + vs, k)),
            },
        }
    }
}

/// `n` consecutive prefab cells starting at `i`.
pub open spec fn spec_parse_prefab_row(s: Seq<u8>, i: int, n: nat) -> Result<
    (Seq<Prefab>, int),
    ParseError,
>
    decreases n,
{
    if n == 0 {
        Ok((Seq::empty(), i))
    } else {
        match spec_parse_prefab_cell(s, i) {
            Err(e) => Err(e),
            Ok((v, j)) => match spec_parse_prefab_row(s, j, (n - 1) as nat) {
                Err(e) => Err(e),
                Ok((vs, k)) => Ok((seq![v] + vs, k)),
            },
        }
    }
}

/// `n` rows of 16 height cells, consecutive rows separated by one line feed.
pub open spec fn spec_parse_height_rows(s: Seq<u8>, i: int, n: nat) -> Result<
    (Seq<Seq<Height>>, int),
    ParseError,
>
    decreases n,
{
    if n == 0 {
        Ok((Seq::empty(), i))
    } else {
        match spec_parse_height_row(s, i, 16) {
            Err(e) => Err(e),
            Ok((row, j)) => {
                if n == 1 {
                    Ok((seq![row], j))
                } else if j < s.len() && s[j] == NL {
                    match spec_parse_height_rows(s, j + 1, (n - 1) as nat) {
                        Err(e) => Err(e),
                        Ok((rows, k)) => Ok((seq![row] + rows, k)),
                    }
                } else {
                    Err(ParseError { kind: ParseErrorKind::WrongDimensions, pos: j as usize })
                }
            },
        }
    }
}

/// `n` rows of 16 prefab cells, consecutive rows separated by one line feed.
pub open spec fn spec_parse_prefab_rows(s: Seq<u8>, i: int, n: nat) -> Result<
    (Seq<Seq<Prefab>>, int),
    ParseError,
>
    decreases n,
{
    if n == 0 {
        Ok((Seq::empty(), i))
    } else {
        match spec_parse_prefab_row(s, i, 16) {
            Err(e) => Err(e),
            Ok((row, j)) => {
                if n == 1 {
                    Ok((seq![row], j))
                } else if j < s.len() && s[j] == NL {
                    match spec_parse_prefab_rows(s, j + 1, (n - 1) as nat) {
                        Err(e) => Err(e),
                        Ok((rows, k)) => Ok((seq![row] + rows, k)),
                    }
                } else {
                    Err(ParseError { kind: ParseErrorKind::WrongDimensions, pos: j as usize })
                }
            },
        }
    }
}

/// A whole level: the heights grid, one blank line, the prefabs grid, and
/// nothing after it.
pub open spec fn spec_parse_level(s: Seq<u8>) -> Result<
    (Seq<Seq<Height>>, Seq<Seq<Prefab>>),
    ParseError,
> {
    match spec_parse_height_rows(s, 0, 16) {
        Err(e) => Err(e),
        Ok((h, i)) => {
            if i + 1 < s.len() && s[i] == NL && s[i + 1] == NL {
                match spec_parse_prefab_rows(s, i + 2, 16) {
                    Err(e) => Err(e),
                    Ok((p, j)) => {
                        if j == s.len() {
                            Ok((h, p))
                        } else {
                            Err(ParseError { kind: ParseErrorKind::TrailingInput, pos: j as usize })
                        }
                    },
                }
            } else {
                Err(ParseError { kind: ParseErrorKind::MissingSeparator, pos: i as usize })
            }
        },
    }
}

impl Height {
    /// Parse one height cell at position `i` of `s`; on success returns the
    /// cell and the position just past it.
    pub fn parse(s: &[u8], i: usize) -> (r: Result<(Height, usize), ParseError>)
        requires
            i <= s@.len(),
        ensures
            match r {
                Ok((v, j)) => {
                    &&& spec_parse_height_cell(s@, i as int) == Ok::<(i8, int), ParseError>(
                        (v.0, j as int),
                    )
                    &&& i < j <= s@.len()
                },
                Err(e) => spec_parse_height_cell(s@, i as int) == Err::<(i8, int), ParseError>(e),
            },
    {
        let n: usize = s.len();
        let bad = ParseError { kind: ParseErrorKind::BadHeightToken, pos: i };
        if i >= n {
            return Err(bad);
        }
        let b: u8 = s[i];
        if 48 <= b && b <= 57 {
            return Ok((Height((b - 48) as i8), i + 1));
        }
        if b != LPAREN {
            return Err(bad);
        }
        let neg: bool = i + 1 < n && s[i + 1] == MINUS;
        let j0: usize = if neg {
            i + 2
        } else {
            i + 1
        };
        let mut j: usize = j0;
        let mut acc: u32 = 0;
        proof {
            assert(s@.subrange(j0 as int, j0 as int) =~= Seq::<u8>::empty());
        }
        while j < n && 48 <= s[j] && s[j] <= 57
            invariant
                j0 <= j <= n,
                n == s@.len(),
                forall|k: int| j0 <= k < j ==> is_ascii_digit(s@[k]),
                digits_end(s@, j0 as int) == digits_end(s@, j as int),
                dec_val(s@.subrange(j0 as int, j as int)) <= 999 ==> acc == dec_val(
                    s@.subrange(j0 as int, j as int),
                ),
                dec_val(s@.subrange(j0 as int, j as int)) >= 1000 ==> acc >= 1000,
            decreases n - j,
        {
            let d: u8 = s[j] - 48;
            proof {
                let pre = s@.subrange(j0 as int, j as int);
                let post = s@.subrange(j0 as int, j as int + 1);
                assert(post.drop_last() =~= pre);
                assert(post.last() == s@[j as int]);
            }
            if acc < 1000 {
                acc = acc * 10 + (d as u32);
            }
            j = j + 1;
        }
        proof {
            lemma_digits_end_props(s@, j as int);
            assert(digits_end(s@, j0 as int) == j as int);
        }
        if j == j0 {
            return Err(bad);
        }
        if j == n || s[j] != RPAREN {
            return Err(bad);
        }
        if !neg {
            if acc <= 127 {
                Ok((Height(acc as i8), j + 1))
            } else {
                Err(bad)
            }
        } else {
            if acc <= 128 {
                Ok((Height((-(acc as i32)) as i8), j + 1))
            } else {
                Err(bad)
            }
        }
    }
}

impl Prefab {
    /// Parse one prefab cell at position `i` of `s`; on success returns the
    /// cell and the position just past it.
    pub fn parse(s: &[u8], i: usize) -> (r: Result<(Prefab, usize), ParseError>)
        requires
            i <= s@.len(),
        ensures
            match r {
                Ok((v, j)) => {
                    &&& spec_parse_prefab_cell(s@, i as int) == Ok::<(Prefab, int), ParseError>(
                        (v, j as int),
                    )
                    &&& i < j <= s@.len()
                },
                Err(e) => spec_parse_prefab_cell(s@, i as int) == Err::<(Prefab, int), ParseError>(
                    e,
                ),
            },
    {
        if i >= s.len() {
            return Err(ParseError { kind: ParseErrorKind::BadPrefabChar, pos: i });
        }
        let b: u8 = s[i];
        if b == 48 {
            Ok((Prefab::Empty, i + 1))
        } else if b == 110 {
            Ok((Prefab::Melee, i + 1))
        } else if b == 112 {
            Ok((Prefab::Projectile, i + 1))
        } else if b == 74 {
            Ok((Prefab::JumpPad, i + 1))
        } else if b == 115 {
            Ok((Prefab::Stairs, i + 1))
        } else if b == 72 {
            Ok((Prefab::Hideous, i + 1))
        } else {
            Err(ParseError { kind: ParseErrorKind::BadPrefabChar, pos: i })
        }
    }
}

/// Parse one 16-cell height row starting at `i`.
pub fn parse_height_row(s: &[u8], i: usize) -> (r: Result<(Vec<Height>, usize), ParseError>)
    requires
        i <= s@.len(),
    ensures
        match r {
            Ok((row, j)) => {
                &&& spec_parse_height_row(s@, i as int, 16) == Ok::<(Seq<Height>, int), ParseError>(
                    (row@, j as int),
                )
                &&& i <= j <= s@.len()
                &&& row@.len() == 16
            },
            Err(e) => spec_parse_height_row(s@, i as int, 16) == Err::<
                (Seq<Height>, int),
                ParseError,
            >(e),
        },
{
    let mut acc: Vec<Height> = Vec::new();
    let mut j: usize = i;
    let mut k: usize = 0;
    while k < 16
        invariant
            i <= j <= s@.len(),
            acc@.len() == k,
            k <= 16,
            spec_parse_height_row(s@, i as int, 16) == (match spec_parse_height_row(
                s@,
                j as int,
                (16 - k) as nat,
            ) {
                Ok((vs, end)) => Ok::<(Seq<Height>, int), ParseError>((acc@ + vs, end)),
                Err(e) => Err::<(Seq<Height>, int), ParseError>(e),
            }),
        decreases 16 - k,
    {
        match Height::parse(s, j) {
            Err(e) => {
                return Err(e);
            },
            Ok((v, j2)) => {
                proof {
                    let rest = spec_parse_height_row(s@, j2 as int, (16 - k - 1) as nat);
                    if rest is Ok {
                        let (vs2, end) = rest->Ok_0;
                        assert(acc@ + (seq![v] + vs2) =~= acc@.push(v) + vs2);
                    }
                }
                acc.push(v);
                j = j2;
                k = k + 1;
            },
        }
    }
    proof {
        assert(acc@ + Seq::<Height>::empty() =~= acc@);
    }
    Ok((acc, j))
}

/// Parse one 16-cell prefab row starting at `i`.
fn parse_prefab_row(s: &[u8], i: usize) -> (r: Result<(Vec<Prefab>, usize), ParseError>)
    requires
        i <= s@.len(),
    ensures
        match r {
            Ok((row, j)) => {
                &&& spec_parse_prefab_row(s@, i as int, 16) == Ok::<(Seq<Prefab>, int), ParseError>(
                    (row@, j as int),
                )
                &&& i <= j <= s@.len()
                &&& row@.len() == 16
            },
            Err(e) => spec_parse_prefab_row(s@, i as int, 16) == Err::<
                (Seq<Prefab>, int),
                ParseError,
            >(e),
        },
{
    let mut acc: Vec<Prefab> = Vec::new();
    let mut j: usize = i;
    let mut k: usize = 0;
    while k < 16
        invariant
            i <= j <= s@.len(),
            acc@.len() == k,
            k <= 16,
            spec_parse_prefab_row(s@, i as int, 16) == (match spec_parse_prefab_row(
                s@,
                j as int,
                (16 - k) as nat,
            ) {
                Ok((vs, end)) => Ok::<(Seq<Prefab>, int), ParseError>((acc@ + vs, end)),
                Err(e) => Err::<(Seq<Prefab>, int), ParseError>(e),
            }),
        decreases 16 - k,
    {
        match Prefab::parse(s, j) {
            Err(e) => {
                return Err(e);
            },
            Ok((v, j2)) => {
                proof {
                    let rest = spec_parse_prefab_row(s@, j2 as int, (16 - k - 1) as nat);
                    if rest is Ok {
                        let (vs2, end) = rest->Ok_0;
                        assert(acc@ + (seq![v] + vs2) =~= acc@.push(v) + vs2);
                    }
                }
                acc.push(v);
                j = j2;
                k = k + 1;
            },
        }
    }
    proof {
        assert(acc@ + Seq::<Prefab>::empty() =~= acc@);
    }
    Ok((acc, j))
}

impl Grid<Height> {
    /// Parse a 16-line heights grid starting at `i`.
    pub fn parse(s: &[u8], i: usize) -> (r: Result<(Grid<Height>, usize), ParseError>)
        requires
            i <= s@.len(),
        ensures
            match r {
                Ok((g, j)) => {
                    &&& spec_parse_height_rows(s@, i as int, 16) == Ok::<
                        (Seq<Seq<Height>>, int),
                        ParseError,
                    >((g@, j as int))
                    &&& i <= j <= s@.len()
                    &&& g.wf()
                },
                Err(e) => spec_parse_height_rows(s@, i as int, 16) == Err::<
                    (Seq<Seq<Height>>, int),
                    ParseError,
                >(e),
            },
    {
        let mut acc: Vec<Vec<Height>> = Vec::new();
        let mut j: usize = i;
        let mut k: usize = 0;
        loop
            invariant
                i <= j <= s@.len(),
                acc@.len() == k,
                k < 16,
                forall|y: int| 0 <= y < k ==> (#[trigger] acc@[y])@.len() == 16,
                spec_parse_height_rows(s@, i as int, 16) == (match spec_parse_height_rows(
                    s@,
                    j as int,
                    (16 - k) as nat,
                ) {
                    Ok((rs, end)) => Ok::<(Seq<Seq<Height>>, int), ParseError>(
                        (acc@.map_values(|r: Vec<Height>| r@) + rs, end),
                    ),
                    Err(e) => Err::<(Seq<Seq<Height>>, int), ParseError>(e),
                }),
            decreases 16 - k,
        {
            match parse_height_row(s, j) {
                Err(e) => {
                    return Err(e);
                },
                Ok((row, j2)) => {
                    if k == 15 {
                        proof {
                            let gv = acc@.push(row).map_values(|r: Vec<Height>| r@);
                            assert(gv =~= acc@.map_values(|r: Vec<Height>| r@) + seq![row@]);
                        }
                        acc.push(row);
                        let g = Grid(acc);
                        proof {
                            assert(g@ =~= g.0@.map_values(|r: Vec<Height>| r@));
                        }
                        return Ok((g, j2));
                    }
                    if j2 < s.len() && s[j2] == NL {
                        proof {
                            let rest = spec_parse_height_rows(
                                s@,
                                j2 as int + 1,
                                (16 - k - 1) as nat,
                            );
                            if rest is Ok {
                                let (rs2, end) = rest->Ok_0;
                                assert(acc@.map_values(|r: Vec<Height>| r@) + (seq![row@] + rs2)
                                    =~= acc@.push(row).map_values(|r: Vec<Height>| r@) + rs2);
                            }
                        }
                        acc.push(row);
                        j = j2 + 1;
                        k = k + 1;
                    } else {
                        return Err(ParseError { kind: ParseErrorKind::WrongDimensions, pos: j2 });
                    }
                },
            }
        }
    }
}

impl Grid<Prefab> {
    /// Parse a 16-line prefabs grid starting at `i`.
    pub fn parse(s: &[u8], i: usize) -> (r: Result<(Grid<Prefab>, usize), ParseError>)
        requires
            i <= s@.len(),
        ensures
            match r {
                Ok((g, j)) => {
                    &&& spec_parse_prefab_rows(s@, i as int, 16) == Ok::<
                        (Seq<Seq<Prefab>>, int),
                        ParseError,
                    >((g@, j as int))
                    &&& i <= j <= s@.len()
                    &&& g.wf()
                },
                Err(e) => spec_parse_prefab_rows(s@, i as int, 16) == Err::<
                    (Seq<Seq<Prefab>>, int),
                    ParseError,
                >(e),
            },
    {
        let mut acc: Vec<Vec<Prefab>> = Vec::new();
        let mut j: usize = i;
        let mut k: usize = 0;
        loop
            invariant
                i <= j <= s@.len(),
                acc@.len() == k,
                k < 16,
                forall|y: int| 0 <= y < k ==> (#[trigger] acc@[y])@.len() == 16,
                spec_parse_prefab_rows(s@, i as int, 16) == (match spec_parse_prefab_rows(
                    s@,
                    j as int,
                    (16 - k) as nat,
                ) {
                    Ok((rs, end)) => Ok::<(Seq<Seq<Prefab>>, int), ParseError>(
                        (acc@.map_values(|r: Vec<Prefab>| r@) + rs, end),
                    ),
                    Err(e) => Err::<(Seq<Seq<Prefab>>, int), ParseError>(e),
                }),
            decreases 16 - k,
        {
            match parse_prefab_row(s, j) {
                Err(e) => {
                    return Err(e);
                },
                Ok((row, j2)) => {
                    if k == 15 {
                        proof {
                            let gv = acc@.push(row).map_values(|r: Vec<Prefab>| r@);
                            assert(gv =~= acc@.map_values(|r: Vec<Prefab>| r@) + seq![row@]);
                        }
                        acc.push(row);
                        let g = Grid(acc);
                        proof {
                            assert(g@ =~= g.0@.map_values(|r: Vec<Prefab>| r@));
                        }
                        return Ok((g, j2));
                    }
                    if j2 < s.len() && s[j2] == NL {
                        proof {
                            let rest = spec_parse_prefab_rows(
                                s@,
                                j2 as int + 1,
                                (16 - k - 1) as nat,
                            );
                            if rest is Ok {
                                let (rs2, end) = rest->Ok_0;
                                assert(acc@.map_values(|r: Vec<Prefab>| r@) + (seq![row@] + rs2)
                                    =~= acc@.push(row).map_values(|r: Vec<Prefab>| r@) + rs2);
                            }
                        }
                        acc.push(row);
                        j = j2 + 1;
                        k = k + 1;
                    } else {
                        return Err(ParseError { kind: ParseErrorKind::WrongDimensions, pos: j2 });
                    }
                },
            }
        }
    }
}

impl Level {
    /// Parse a whole level document from bytes. Succeeds exactly on the
    /// inputs the grammar accepts; any failure carries its input position,
    /// and no partially populated level is ever returned.
    pub fn parse(s: &[u8]) -> (r: Result<Level, ParseError>)
        ensures
            match r {
                Ok(m) => {
                    &&& spec_parse_level(s@) == Ok::<
                        (Seq<Seq<Height>>, Seq<Seq<Prefab>>),
                        ParseError,
                    >((m.heights@, m.prefabs@))
                    &&& m.wf()
                },
                Err(e) => spec_parse_level(s@) == Err::<
                    (Seq<Seq<Height>>, Seq<Seq<Prefab>>),
                    ParseError,
                >(e),
            },
    {
        let (heights, i) = match Grid::<Height>::parse(s, 0) {
            Ok(hv) => hv,
            Err(e) => {
                return Err(e);
            },
        };
        if !(i < s.len() && s[i] == NL && i + 1 < s.len() && s[i + 1] == NL) {
            return Err(ParseError { kind: ParseErrorKind::MissingSeparator, pos: i });
        }
        let (prefabs, j) = match Grid::<Prefab>::parse(s, i + 2) {
            Ok(pv) => pv,
            Err(e) => {
                return Err(e);
            },
        };
        if j != s.len() {
            return Err(ParseError { kind: ParseErrorKind::TrailingInput, pos: j });
        }
        Ok(Level { heights, prefabs })
    }

    /// Parse a whole level document from text, as read from a level file.
    pub fn from_str(input: &str) -> (r: Result<Level, ParseError>)
        ensures
            match r {
                Ok(m) => {
                    &&& spec_parse_level(input.spec_bytes()) == Ok::<
                        (Seq<Seq<Height>>, Seq<Seq<Prefab>>),
                        ParseError,
                    >((m.heights@, m.prefabs@))
                    &&& m.wf()
                },
                Err(e) => spec_parse_level(input.spec_bytes()) == Err::<
                    (Seq<Seq<Height>>, Seq<Seq<Prefab>>),
                    ParseError,
                >(e),
            },
    {
        Level::parse(input.as_bytes())
    }
}

/// Text of one height cell: terse single digit for 0-9, else the value in
/// parentheses (including all negative values).
pub open spec fn spec_ser_height(h: Height) -> Seq<u8> {
    if 0 <= h.0 <= 9 {
        seq![(48 + h.0) as u8]
    } else if h.0 > 9 {
        seq![LPAREN] + dec_digits(h.0 as nat) + seq![RPAREN]
    } else {
        seq![LPAREN, MINUS] + dec_digits((-h.0) as nat) + seq![RPAREN]
    }
}

/// Text of one prefab cell: its canonical single character.
pub open spec fn spec_ser_prefab(p: Prefab) -> Seq<u8> {
    match p {
        Prefab::Empty => seq![48u8],
        Prefab::Melee => seq![110u8],
        Prefab::Projectile => seq![112u8],
        Prefab::JumpPad => seq![74u8],
        Prefab::Stairs => seq![115u8],
        Prefab::Hideous => seq![72u8],
    }
}

/// Text of a height row: its cells concatenated, nothing between them.
pub open spec fn spec_ser_height_row(r: Seq<Height>) -> Seq<u8>
    decreases r.len(),
{
    if r.len() == 0 {
        Seq::empty()
    } else {
        spec_ser_height(r[0]) + spec_ser_height_row(r.drop_first())
    }
}

/// Text of a prefab row: its cells concatenated, nothing between them.
pub open spec fn spec_ser_prefab_row(r: Seq<Prefab>) -> Seq<u8>
    decreases r.len(),
{
    if r.len() == 0 {
        Seq::empty()
    } else {
        spec_ser_prefab(r[0]) + spec_ser_prefab_row(r.drop_first())
    }
}

/// Text of a heights grid: rows joined with single line feeds, none trailing.
pub open spec fn spec_ser_height_grid(g: Seq<Seq<Height>>) -> Seq<u8>
    decreases g.len(),
{
    if g.len() == 0 {
        Seq::empty()
    } else if g.len() == 1 {
        spec_ser_height_row(g[0])
    } else {
        spec_ser_height_row(g[0]) + seq![NL] + spec_ser_height_grid(g.drop_first())
    }
}

/// Text of a prefabs grid: rows joined with single line feeds, none trailing.
pub open spec fn spec_ser_prefab_grid(g: Seq<Seq<Prefab>>) -> Seq<u8>
    decreases g.len(),
{
    if g.len() == 0 {
        Seq::empty()
    } else if g.len() == 1 {
        spec_ser_prefab_row(g[0])
    } else {
        spec_ser_prefab_row(g[0]) + seq![NL] + spec_ser_prefab_grid(g.drop_first())
    }
}

/// Text of a whole level: heights grid, blank line, prefabs grid, and no
/// trailing line break.
pub open spec fn spec_ser_level(h: Seq<Seq<Height>>, p: Seq<Seq<Prefab>>) -> Seq<u8> {
    spec_ser_height_grid(h) + seq![NL, NL] + spec_ser_prefab_grid(p)
}

/// Append the canonical decimal digits of `n`.
fn push_decimal(n: u32, out: &mut Vec<u8>)
    ensures
        final(out)@ == old(out)@ + dec_digits(n as nat),
    decreases n,
{
    if n < 10 {
        out.push((48 + n) as u8);
        proof {
            assert(final(out)@ =~= old(out)@ + dec_digits(n as nat));
        }
    } else {
        push_decimal(n / 10, out);
        out.push((48 + n % 10) as u8);
        proof {
            assert(final(out)@ =~= old(out)@ + dec_digits(n as nat));
        }
    }
}

impl Height {
    /// Append this cell's text: the terse digit for 0-9, else the
    /// parenthesized decimal form.
    pub fn serialize_into(&self, out: &mut Vec<u8>)
        ensures
            final(out)@ == old(out)@ + spec_ser_height(*self),
    {
        let v: i8 = self.0;
        if 0 <= v && v <= 9 {
            out.push(48 + (v as u8));
            proof {
                assert(final(out)@ =~= old(out)@ + spec_ser_height(*self));
            }
        } else if v > 9 {
            out.push(LPAREN);
            push_decimal(v as u32, out);
            out.push(RPAREN);
            proof {
                assert(final(out)@ =~= old(out)@ + spec_ser_height(*self));
            }
        } else {
            out.push(LPAREN);
            out.push(MINUS);
            let n: u32 = (-(v as i32)) as u32;
            push_decimal(n, out);
            out.push(RPAREN);
            proof {
                assert(n as nat == (-v) as nat);
                assert(final(out)@ =~= old(out)@ + spec_ser_height(*self));
            }
        }
    }

    /// This cell's text on its own.
    pub fn serialize(&self) -> (out: Vec<u8>)
        ensures
            out@ == spec_ser_height(*self),
    {
        let mut out: Vec<u8> = Vec::new();
        self.serialize_into(&mut out);
        proof {
            assert(out@ =~= spec_ser_height(*self));
        }
        out
    }
}

impl Prefab {
    /// Append this cell's canonical character.
    pub fn serialize_into(&self, out: &mut Vec<u8>)
        ensures
            final(out)@ == old(out)@ + spec_ser_prefab(*self),
    {
        let b: u8 = match self {
            Prefab::Empty => 48,
            Prefab::Melee => 110,
            Prefab::Projectile => 112,
            Prefab::JumpPad => 74,
            Prefab::Stairs => 115,
            Prefab::Hideous => 72,
        };
        out.push(b);
        proof {
            assert(final(out)@ =~= old(out)@ + spec_ser_prefab(*self));
        }
    }

    /// This cell's text on its own.
    pub fn serialize(&self) -> (out: Vec<u8>)
        ensures
            out@ == spec_ser_prefab(*self),
    {
        let mut out: Vec<u8> = Vec::new();
        self.serialize_into(&mut out);
        proof {
            assert(out@ =~= spec_ser_prefab(*self));
        }
        out
    }
}

/// Serializing one more cell extends a row's text on the right.
proof fn lemma_ser_height_row_push(r: Seq<Height>, c: Height)
    ensures
        spec_ser_height_row(r.push(c)) == spec_ser_height_row(r) + spec_ser_height(c),
    decreases r.len(),
{
    if r.len() == 0 {
        assert(r.push(c).drop_first() =~= Seq::<Height>::empty());
        assert(r.push(c)[0] == c);
        assert(spec_ser_height_row(Seq::<Height>::empty()) == Seq::<u8>::empty());
        assert(spec_ser_height_row(r.push(c)) == spec_ser_height(c) + Seq::<u8>::empty());
        assert(spec_ser_height(c) + Seq::<u8>::empty() =~= Seq::<u8>::empty() + spec_ser_height(
            c,
        ));
    } else {
        lemma_ser_height_row_push(r.drop_first(), c);
        assert(r.push(c).drop_first() =~= r.drop_first().push(c));
        assert(r.push(c)[0] == r[0]);
        assert(spec_ser_height_row(r.push(c)) == spec_ser_height(r[0]) + spec_ser_height_row(
            r.drop_first().push(c),
        ));
        assert(spec_ser_height_row(r) == spec_ser_height(r[0]) + spec_ser_height_row(
            r.drop_first(),
        ));
        assert(spec_ser_height(r[0]) + (spec_ser_height_row(r.drop_first()) + spec_ser_height(c))
            =~= (spec_ser_height(r[0]) + spec_ser_height_row(r.drop_first())) + spec_ser_height(
            c,
        ));
    }
}

/// Serializing one more cell extends a row's text on the right.
proof fn lemma_ser_prefab_row_push(r: Seq<Prefab>, c: Prefab)
    ensures
        spec_ser_prefab_row(r.push(c)) == spec_ser_prefab_row(r) + spec_ser_prefab(c),
    decreases r.len(),
{
    if r.len() == 0 {
        assert(r.push(c).drop_first() =~= Seq::<Prefab>::empty());
        assert(r.push(c)[0] == c);
        assert(spec_ser_prefab_row(Seq::<Prefab>::empty()) == Seq::<u8>::empty());
        assert(spec_ser_prefab_row(r.push(c)) == spec_ser_prefab(c) + Seq::<u8>::empty());
        assert(spec_ser_prefab(c) + Seq::<u8>::empty() =~= Seq::<u8>::empty() + spec_ser_prefab(
            c,
        ));
    } else {
        lemma_ser_prefab_row_push(r.drop_first(), c);
        assert(r.push(c).drop_first() =~= r.drop_first().push(c));
        assert(r.push(c)[0] == r[0]);
        assert(spec_ser_prefab_row(r.push(c)) == spec_ser_prefab(r[0]) + spec_ser_prefab_row(
            r.drop_first().push(c),
        ));
        assert(spec_ser_prefab_row(r) == spec_ser_prefab(r[0]) + spec_ser_prefab_row(
            r.drop_first(),
        ));
        assert(spec_ser_prefab(r[0]) + (spec_ser_prefab_row(r.drop_first()) + spec_ser_prefab(c))
            =~= (spec_ser_prefab(r[0]) + spec_ser_prefab_row(r.drop_first())) + spec_ser_prefab(
            c,
        ));
    }
}

/// Serializing one more row extends a grid's text with a line feed and the row.
proof fn lemma_ser_height_grid_push(g: Seq<Seq<Height>>, r: Seq<Height>)
    requires
        g.len() >= 1,
    ensures
        spec_ser_height_grid(g.push(r)) == spec_ser_height_grid(g) + seq![NL]
            + spec_ser_height_row(r),
    decreases g.len(),
{
    if g.len() == 1 {
        assert(g.push(r).drop_first() =~= seq![r]);
        assert(g.push(r)[0] == g[0]);
        assert(spec_ser_height_row(g[0]) + seq![NL] + spec_ser_height_row(r)
            =~= spec_ser_height_row(g[0]) + (seq![NL] + spec_ser_height_row(r)));
        assert(spec_ser_height_grid(seq![r]) == spec_ser_height_row(r));
    } else {
        lemma_ser_height_grid_push(g.drop_first(), r);
        assert(g.push(r).drop_first() =~= g.drop_first().push(r));
        assert(g.push(r)[0] == g[0]);
        assert(spec_ser_height_row(g[0]) + seq![NL] + (spec_ser_height_grid(g.drop_first())
            + seq![NL] + spec_ser_height_row(r)) =~= (spec_ser_height_row(g[0]) + seq![NL]
            + spec_ser_height_grid(g.drop_first())) + seq![NL] + spec_ser_height_row(r));
    }
}

/// Serializing one more row extends a grid's text with a line feed and the row.
proof fn lemma_ser_prefab_grid_push(g: Seq<Seq<Prefab>>, r: Seq<Prefab>)
    requires
        g.len() >= 1,
    ensures
        spec_ser_prefab_grid(g.push(r)) == spec_ser_prefab_grid(g) + seq![NL]
            + spec_ser_prefab_row(r),
    decreases g.len(),
{
    if g.len() == 1 {
        assert(g.push(r).drop_first() =~= seq![r]);
        assert(g.push(r)[0] == g[0]);
        assert(spec_ser_prefab_row(g[0]) + seq![NL] + spec_ser_prefab_row(r)
            =~= spec_ser_prefab_row(g[0]) + (seq![NL] + spec_ser_prefab_row(r)));
        assert(spec_ser_prefab_grid(seq![r]) == spec_ser_prefab_row(r));
    } else {
        lemma_ser_prefab_grid_push(g.drop_first(), r);
        assert(g.push(r).drop_first() =~= g.drop_first().push(r));
        assert(g.push(r)[0] == g[0]);
        assert(spec_ser_prefab_row(g[0]) + seq![NL] + (spec_ser_prefab_grid(g.drop_first())
            + seq![NL] + spec_ser_prefab_row(r)) =~= (spec_ser_prefab_row(g[0]) + seq![NL]
            + spec_ser_prefab_grid(g.drop_first())) + seq![NL] + spec_ser_prefab_row(r));
    }
}

/// Append the text of one height row.
fn ser_height_row_into(row: &Vec<Height>, out: &mut Vec<u8>)
    ensures
        final(out)@ == old(out)@ + spec_ser_height_row(row@),
{
    let mut k: usize = 0;
    proof {
        assert(row@.take(0) =~= Seq::<Height>::empty());
        assert(old(out)@ + Seq::<u8>::empty() =~= old(out)@);
    }
    while k < row.len()
        invariant
            k <= row@.len(),
            out@ == old(out)@ + spec_ser_height_row(row@.take(k as int)),
        decreases row@.len() - k,
    {
        row[k].serialize_into(out);
        proof {
            lemma_ser_height_row_push(row@.take(k as int), row@[k as int]);
            assert(row@.take(k as int + 1) =~= row@.take(k as int).push(row@[k as int]));
            assert((old(out)@ + spec_ser_height_row(row@.take(k as int))) + spec_ser_height(
                row@[k as int],
            ) =~= old(out)@ + (spec_ser_height_row(row@.take(k as int)) + spec_ser_height(
                row@[k as int],
            )));
        }
        k = k + 1;
    }
    proof {
        assert(row@.take(row@.len() as int) =~= row@);
    }
}

/// Append the text of one prefab row.
fn ser_prefab_row_into(row: &Vec<Prefab>, out: &mut Vec<u8>)
    ensures
        final(out)@ == old(out)@ + spec_ser_prefab_row(row@),
{
    let mut k: usize = 0;
    proof {
        assert(row@.take(0) =~= Seq::<Prefab>::empty());
        assert(old(out)@ + Seq::<u8>::empty() =~= old(out)@);
    }
    while k < row.len()
        invariant
            k <= row@.len(),
            out@ == old(out)@ + spec_ser_prefab_row(row@.take(k as int)),
        decreases row@.len() - k,
    {
        row[k].serialize_into(out);
        proof {
            lemma_ser_prefab_row_push(row@.take(k as int), row@[k as int]);
            assert(row@.take(k as int + 1) =~= row@.take(k as int).push(row@[k as int]));
            assert((old(out)@ + spec_ser_prefab_row(row@.take(k as int))) + spec_ser_prefab(
                row@[k as int],
            ) =~= old(out)@ + (spec_ser_prefab_row(row@.take(k as int)) + spec_ser_prefab(
                row@[k as int],
            )));
        }
        k = k + 1;
    }
    proof {
        assert(row@.take(row@.len() as int) =~= row@);
    }
}

impl Level {
    /// The level's full text: heights grid, one blank line, prefabs grid.
    /// This is the exact byte sequence the grammar parses back (see the
    /// round-trip law in `roundtrip`).
    pub fn serialize(&self) -> (out: Vec<u8>)
        requires
            self.wf(),
        ensures
            out@ == spec_ser_level(self.heights@, self.prefabs@),
    {
        let mut out: Vec<u8> = Vec::new();
        let mut y: usize = 0;
        proof {
            assert(self.heights@.take(0) =~= Seq::<Seq<Height>>::empty());
        }
        while y < 16
            invariant
                y <= 16,
                self.wf(),
                out@ == spec_ser_height_grid(self.heights@.take(y as int)),
            decreases 16 - y,
        {
            if y > 0 {
                out.push(NL);
            }
            ser_height_row_into(&self.heights.0[y], &mut out);
            proof {
                assert(self.heights.0@[y as int]@ == self.heights@[y as int]);
                assert(self.heights@.take(y as int + 1) =~= self.heights@.take(y as int).push(
                    self.heights@[y as int],
                ));
                if y == 0 {
                    assert(spec_ser_height_grid(seq![self.heights@[0]]) == spec_ser_height_row(
                        self.heights@[0],
                    ));
                    assert(self.heights@.take(1) =~= seq![self.heights@[0]]);
                    assert(Seq::<u8>::empty() + spec_ser_height_row(self.heights@[0])
                        =~= spec_ser_height_row(self.heights@[0]));
                } else {
                    lemma_ser_height_grid_push(
                        self.heights@.take(y as int),
                        self.heights@[y as int],
                    );
                    assert((spec_ser_height_grid(self.heights@.take(y as int)) + seq![NL])
                        + spec_ser_height_row(self.heights@[y as int]) =~= spec_ser_height_grid(
                        self.heights@.take(y as int),
                    ) + seq![NL] + spec_ser_height_row(self.heights@[y as int]));
                }
            }
            y = y + 1;
        }
        proof {
            assert(self.heights@.take(16) =~= self.heights@);
        }
        out.push(NL);
        out.push(NL);
        let ghost mid = out@;
        proof {
            assert(mid =~= spec_ser_height_grid(self.heights@) + seq![NL, NL]);
            assert(self.prefabs@.take(0) =~= Seq::<Seq<Prefab>>::empty());
            assert(mid + Seq::<u8>::empty() =~= mid);
        }
        let mut y2: usize = 0;
        while y2 < 16
            invariant
                y2 <= 16,
                self.wf(),
                out@ == mid + spec_ser_prefab_grid(self.prefabs@.take(y2 as int)),
                mid == spec_ser_height_grid(self.heights@) + seq![NL, NL],
            decreases 16 - y2,
        {
            if y2 > 0 {
                out.push(NL);
            }
            ser_prefab_row_into(&self.prefabs.0[y2], &mut out);
            proof {
                assert(self.prefabs.0@[y2 as int]@ == self.prefabs@[y2 as int]);
                assert(self.prefabs@.take(y2 as int + 1) =~= self.prefabs@.take(y2 as int).push(
                    self.prefabs@[y2 as int],
                ));
                if y2 == 0 {
                    assert(spec_ser_prefab_grid(seq![self.prefabs@[0]]) == spec_ser_prefab_row(
                        self.prefabs@[0],
                    ));
                    assert(self.prefabs@.take(1) =~= seq![self.prefabs@[0]]);
                    assert(mid + Seq::<u8>::empty() + spec_ser_prefab_row(self.prefabs@[0]) =~= mid
                        + spec_ser_prefab_row(self.prefabs@[0]));
                } else {
                    lemma_ser_prefab_grid_push(
                        self.prefabs@.take(y2 as int),
                        self.prefabs@[y2 as int],
                    );
                    assert((mid + spec_ser_prefab_grid(self.prefabs@.take(y2 as int)) + seq![NL])
                        + spec_ser_prefab_row(self.prefabs@[y2 as int]) =~= mid + (
                    spec_ser_prefab_grid(self.prefabs@.take(y2 as int)) + seq![NL]
                        + spec_ser_prefab_row(self.prefabs@[y2 as int])));
                }
            }
            y2 = y2 + 1;
        }
        proof {
            assert(self.prefabs@.take(16) =~= self.prefabs@);
            assert(mid + spec_ser_prefab_grid(self.prefabs@) =~= spec_ser_level(
                self.heights@,
                self.prefabs@,
            ));
        }
        out
    }
}

} // verus!
