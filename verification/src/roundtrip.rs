//! The codec's round-trip law: parsing the serialized text of any
//! well-formed level yields that level back, exactly.

use vstd::prelude::*;

use crate::codec::{
    dec_digits, dec_val, digits_end, is_ascii_digit, spec_parse_height_cell,
    spec_parse_height_row, spec_parse_height_rows, spec_parse_level, spec_parse_prefab_cell,
    spec_parse_prefab_row, spec_parse_prefab_rows, spec_ser_height, spec_ser_height_grid,
    spec_ser_height_row, spec_ser_level, spec_ser_prefab, spec_ser_prefab_grid,
    spec_ser_prefab_row, ParseError, LPAREN, MINUS, NL, RPAREN,
};
use crate::model::{mat_wf, Height, Prefab};

verus! {

/// The canonical decimal digits of `n` are digit bytes, at least one of them.
proof fn lemma_dec_digits_are_digits(n: nat)
    ensures
        dec_digits(n).len() >= 1,
        forall|k: int| 0 <= k < dec_digits(n).len() ==> is_ascii_digit(#[trigger] dec_digits(n)[k]),
    decreases n,
{
    if n >= 10 {
        lemma_dec_digits_are_digits(n / 10);
        assert(n % 10 < 10);
    }
}

/// Reading back the canonical decimal digits of `n` gives `n`.
proof fn lemma_dec_val_dec_digits(n: nat)
    ensures
        dec_val(dec_digits(n)) == n,
    decreases n,
{
    if n < 10 {
        assert(dec_val(Seq::<u8>::empty()) == 0);
        assert(dec_digits(n).drop_last() =~= Seq::<u8>::empty());
        assert(dec_digits(n).last() == (48 + n) as u8);
        assert((48 + n) as u8 == 48 + n);
        assert(dec_val(dec_digits(n)) == dec_val(Seq::<u8>::empty()) * 10 + ((48 + n) - 48));
    } else {
        lemma_dec_val_dec_digits(n / 10);
        assert(dec_digits(n).drop_last() =~= dec_digits(n / 10));
        assert(dec_digits(n).last() == (48 + n % 10) as u8);
        assert(n % 10 < 10);
        assert(dec_val(dec_digits(n)) == dec_val(dec_digits(n / 10)) * 10 + ((48 + n % 10) - 48));
        vstd::arithmetic::div_mod::lemma_fundamental_div_mod(n as int, 10);
    }
}

/// A digit run of length `k` followed by a non-digit ends exactly at `i + k`.
proof fn lemma_digits_end_run(s: Seq<u8>, i: int, k: int)
    requires
        0 <= i,
        k >= 0,
        i + k <= s.len(),
        forall|t: int| i <= t < i + k ==> is_ascii_digit(s[t]),
        i + k == s.len() || !is_ascii_digit(s[i + k]),
    ensures
        digits_end(s, i) == i + k,
    decreases k,
{
    if k == 0 {
    } else {
        lemma_digits_end_run(s, i + 1, k - 1);
    }
}

/// When a prefix of `s` at `i` is the concatenation `a + b`, each part is the
/// matching subrange of `s`.
proof fn lemma_subrange_split(s: Seq<u8>, i: int, a: Seq<u8>, b: Seq<u8>)
    requires
        0 <= i,
        i + a.len() + b.len() <= s.len(),
        s.subrange(i, i + a.len() + b.len()) == a + b,
    ensures
        s.subrange(i, i + a.len()) == a,
        s.subrange(i + a.len(), i + a.len() + b.len()) == b,
        forall|k: int| 0 <= k < a.len() ==> s[i + k] == #[trigger] a[k],
        forall|k: int| 0 <= k < b.len() ==> s[i + a.len() + k] == #[trigger] b[k],
{
    let ab = s.subrange(i, i + a.len() + b.len());
    assert forall|k: int| 0 <= k < a.len() implies s[i + k] == #[trigger] a[k] by {
        assert(ab[k] == s[i + k]);
        assert((a + b)[k] == a[k]);
    }
    assert forall|k: int| 0 <= k < b.len() implies s[i + a.len() + k] == #[trigger] b[k] by {
        assert(ab[a.len() + k] == s[i + a.len() + k]);
        assert((a + b)[a.len() + k] == b[k]);
    }
    assert(s.subrange(i, i + a.len()) =~= a);
    assert(s.subrange(i + a.len(), i + a.len() + b.len()) =~= b);
}

/// Parsing the serialized text of one height cell yields that cell and stops
/// exactly at its end, whatever follows.
proof fn lemma_parse_ser_height(s: Seq<u8>, i: int, h: Height)
    requires
        0 <= i,
        i + spec_ser_height(h).len() <= s.len(),
        s.subrange(i, i + spec_ser_height(h).len()) == spec_ser_height(h),
    ensures
        spec_parse_height_cell(s, i) == Ok::<(i8, int), ParseError>(
            (h.0, i + spec_ser_height(h).len()),
        ),
{
    let tok = spec_ser_height(h);
    if 0 <= h.0 <= 9 {
        assert(s.subrange(i, i + 1)[0] == s[i + 0]);
        assert(s[i] == tok[0]);
        assert(s[i] == (48 + h.0) as u8);
        assert(is_ascii_digit(s[i]));
        assert((s[i] - 48) as i8 == h.0);
    } else {
        let neg = h.0 < 0;
        let mag: nat = if neg {
            (-h.0) as nat
        } else {
            h.0 as nat
        };
        let dd = dec_digits(mag);
        lemma_dec_digits_are_digits(mag);
        lemma_dec_val_dec_digits(mag);
        let pre: Seq<u8> = if neg {
            seq![LPAREN, MINUS]
        } else {
            seq![LPAREN]
        };
        let j0 = i + pre.len();
        assert(tok == pre + (dd + seq![RPAREN])) by {
            if neg {
                assert(seq![LPAREN, MINUS] + dd + seq![RPAREN] =~= seq![LPAREN, MINUS] + (dd
                    + seq![RPAREN]));
            } else {
                assert(seq![LPAREN] + dd + seq![RPAREN] =~= seq![LPAREN] + (dd + seq![RPAREN]));
            }
        }
        lemma_subrange_split(s, i, pre, dd + seq![RPAREN]);
        lemma_subrange_split(s, j0, dd, seq![RPAREN]);
        assert(s[i + 0] == pre[0]);
        assert(s[i] == LPAREN);
        assert(!is_ascii_digit(LPAREN));
        if neg {
            assert(s[i + 1] == pre[1]);
            assert(s[i + 1] == MINUS);
        } else {
            assert(s[i + pre.len() + 0] == dd[0]);
            assert(s[i + 1] == dd[0]);
            assert(is_ascii_digit(dd[0]));
            assert(s[i + 1] != MINUS);
        }
        assert forall|t: int| j0 <= t < j0 + dd.len() implies is_ascii_digit(s[t]) by {
            assert(s[j0 + (t - j0)] == dd[t - j0]);
        }
        assert(seq![RPAREN][0] == RPAREN);
        assert(s[j0 + dd.len() + 0] == seq![RPAREN][0]);
        assert(s[j0 + dd.len()] == RPAREN);
        assert(!is_ascii_digit(RPAREN));
        lemma_digits_end_run(s, j0, dd.len() as int);
        let j = digits_end(s, j0);
        assert(j == j0 + dd.len());
        assert(s.subrange(j0, j) == dd);
        assert(dec_val(s.subrange(j0, j)) == mag);
        if neg {
            assert(mag <= 128);
            assert((-(mag as int)) as i8 == h.0);
        } else {
            assert(mag <= 127);
            assert((mag as int) as i8 == h.0);
        }
        assert(j + 1 == i + tok.len());
    }
}

/// Parsing the serialized text of one prefab cell yields that cell.
proof fn lemma_parse_ser_prefab(s: Seq<u8>, i: int, p: Prefab)
    requires
        0 <= i,
        i + spec_ser_prefab(p).len() <= s.len(),
        s.subrange(i, i + spec_ser_prefab(p).len()) == spec_ser_prefab(p),
    ensures
        spec_parse_prefab_cell(s, i) == Ok::<(Prefab, int), ParseError>((p, i + 1)),
{
    assert(s.subrange(i, i + 1)[0] == s[i]);
    assert(s[i] == spec_ser_prefab(p)[0]);
}

/// Parsing the serialized text of a height row of length `n` yields that row,
/// whatever follows it.
proof fn lemma_parse_ser_height_row(s: Seq<u8>, i: int, r: Seq<Height>)
    requires
        0 <= i,
        i + spec_ser_height_row(r).len() <= s.len(),
        s.subrange(i, i + spec_ser_height_row(r).len()) == spec_ser_height_row(r),
    ensures
        spec_parse_height_row(s, i, r.len()) == Ok::<(Seq<Height>, int), ParseError>(
            (r, i + spec_ser_height_row(r).len()),
        ),
    decreases r.len(),
{
    if r.len() == 0 {
        assert(spec_parse_height_row(s, i, 0) == Ok::<(Seq<Height>, int), ParseError>(
            (Seq::empty(), i),
        ));
        assert(r =~= Seq::<Height>::empty());
    } else {
        let c = spec_ser_height(r[0]);
        let rest = spec_ser_height_row(r.drop_first());
        assert(spec_ser_height_row(r) == c + rest);
        lemma_subrange_split(s, i, c, rest);
        lemma_parse_ser_height(s, i, r[0]);
        lemma_parse_ser_height_row(s, i + c.len(), r.drop_first());
        assert(Height(r[0].0) == r[0]);
        assert(seq![r[0]] + r.drop_first() =~= r);
        assert(i + c.len() + rest.len() == i + spec_ser_height_row(r).len());
    }
}

/// Parsing the serialized text of a prefab row of length `n` yields that row,
/// whatever follows it.
proof fn lemma_parse_ser_prefab_row(s: Seq<u8>, i: int, r: Seq<Prefab>)
    requires
        0 <= i,
        i + spec_ser_prefab_row(r).len() <= s.len(),
        s.subrange(i, i + spec_ser_prefab_row(r).len()) == spec_ser_prefab_row(r),
    ensures
        spec_parse_prefab_row(s, i, r.len()) == Ok::<(Seq<Prefab>, int), ParseError>(
            (r, i + spec_ser_prefab_row(r).len()),
        ),
    decreases r.len(),
{
    if r.len() == 0 {
        assert(r =~= Seq::<Prefab>::empty());
    } else {
        let c = spec_ser_prefab(r[0]);
        let rest = spec_ser_prefab_row(r.drop_first());
        assert(spec_ser_prefab_row(r) == c + rest);
        lemma_subrange_split(s, i, c, rest);
        lemma_parse_ser_prefab(s, i, r[0]);
        lemma_parse_ser_prefab_row(s, i + 1, r.drop_first());
        assert(seq![r[0]] + r.drop_first() =~= r);
    }
}

/// Parsing the serialized text of a grid of `n` 16-cell height rows yields
/// those rows, whatever follows them.
proof fn lemma_parse_ser_height_grid(s: Seq<u8>, i: int, g: Seq<Seq<Height>>)
    requires
        0 <= i,
        g.len() >= 1,
        forall|y: int| 0 <= y < g.len() ==> (#[trigger] g[y]).len() == 16,
        i + spec_ser_height_grid(g).len() <= s.len(),
        s.subrange(i, i + spec_ser_height_grid(g).len()) == spec_ser_height_grid(g),
    ensures
        spec_parse_height_rows(s, i, g.len()) == Ok::<(Seq<Seq<Height>>, int), ParseError>(
            (g, i + spec_ser_height_grid(g).len()),
        ),
    decreases g.len(),
{
    if g.len() == 1 {
        lemma_parse_ser_height_row(s, i, g[0]);
        assert(seq![g[0]] =~= g);
    } else {
        let row = spec_ser_height_row(g[0]);
        let tail = spec_ser_height_grid(g.drop_first());
        let rest = seq![NL] + tail;
        assert(spec_ser_height_grid(g) == row + rest) by {
            assert(row + seq![NL] + tail =~= row + (seq![NL] + tail));
        }
        lemma_subrange_split(s, i, row, rest);
        lemma_parse_ser_height_row(s, i, g[0]);
        let j = i + row.len();
        assert(s[i + row.len() + 0] == rest[0]);
        assert(s[j] == NL);
        assert forall|k: int| 0 <= k < tail.len() implies s.subrange(
            j + 1,
            j + 1 + tail.len(),
        )[k] == tail[k] by {
            assert(rest[k + 1] == tail[k]);
            assert(s[i + row.len() + (k + 1)] == rest[k + 1]);
            assert(s.subrange(j + 1, j + 1 + tail.len())[k] == s[j + 1 + k]);
        }
        assert(s.subrange(j + 1, j + 1 + tail.len()) =~= tail);
        lemma_parse_ser_height_grid(s, j + 1, g.drop_first());
        assert(seq![g[0]] + g.drop_first() =~= g);
    }
}

/// Parsing the serialized text of a grid of `n` 16-cell prefab rows yields
/// those rows, whatever follows them.
proof fn lemma_parse_ser_prefab_grid(s: Seq<u8>, i: int, g: Seq<Seq<Prefab>>)
    requires
        0 <= i,
        g.len() >= 1,
        forall|y: int| 0 <= y < g.len() ==> (#[trigger] g[y]).len() == 16,
        i + spec_ser_prefab_grid(g).len() <= s.len(),
        s.subrange(i, i + spec_ser_prefab_grid(g).len()) == spec_ser_prefab_grid(g),
    ensures
        spec_parse_prefab_rows(s, i, g.len()) == Ok::<(Seq<Seq<Prefab>>, int), ParseError>(
            (g, i + spec_ser_prefab_grid(g).len()),
        ),
    decreases g.len(),
{
    if g.len() == 1 {
        lemma_parse_ser_prefab_row(s, i, g[0]);
        assert(seq![g[0]] =~= g);
    } else {
        let row = spec_ser_prefab_row(g[0]);
        let tail = spec_ser_prefab_grid(g.drop_first());
        let rest = seq![NL] + tail;
        assert(spec_ser_prefab_grid(g) == row + rest) by {
            assert(row + seq![NL] + tail =~= row + (seq![NL] + tail));
        }
        lemma_subrange_split(s, i, row, rest);
        lemma_parse_ser_prefab_row(s, i, g[0]);
        let j = i + row.len();
        assert(s[i + row.len() + 0] == rest[0]);
        assert(s[j] == NL);
        assert forall|k: int| 0 <= k < tail.len() implies s.subrange(
            j + 1,
            j + 1 + tail.len(),
        )[k] == tail[k] by {
            assert(rest[k + 1] == tail[k]);
            assert(s[i + row.len() + (k + 1)] == rest[k + 1]);
            assert(s.subrange(j + 1, j + 1 + tail.len())[k] == s[j + 1 + k]);
        }
        assert(s.subrange(j + 1, j + 1 + tail.len()) =~= tail);
        lemma_parse_ser_prefab_grid(s, j + 1, g.drop_first());
        assert(seq![g[0]] + g.drop_first() =~= g);
    }
}

/// Height encoding choice: a height in 0..=9 serializes as exactly one
/// ASCII digit; every other height serializes as its decimal value in
/// parentheses, opening with `(` and closing with `)`.
pub proof fn lemma_height_encoding_choice(h: Height)
    ensures
        0 <= h.0 <= 9 ==> spec_ser_height(h) == seq![(48 + h.0) as u8],
        h.0 > 9 ==> spec_ser_height(h) == seq![LPAREN] + dec_digits(h.0 as nat) + seq![RPAREN],
        h.0 < 0 ==> spec_ser_height(h) == seq![LPAREN, MINUS] + dec_digits((-h.0) as nat) + seq![
            RPAREN,
        ],
        (spec_ser_height(h).len() == 1) == (0 <= h.0 <= 9),
        !(0 <= h.0 <= 9) ==> spec_ser_height(h).first() == LPAREN && spec_ser_height(h).last()
            == RPAREN,
{
    if !(0 <= h.0 <= 9) {
        let mag: nat = if h.0 < 0 {
            (-h.0) as nat
        } else {
            h.0 as nat
        };
        lemma_dec_digits_are_digits(mag);
    }
}

/// Round trip: for every well-formed level, parsing its serialized text
/// yields exactly that level.
#[verifier::rlimit(50)]
pub proof fn lemma_round_trip(h: Seq<Seq<Height>>, p: Seq<Seq<Prefab>>)
    requires
        mat_wf(h),
        mat_wf(p),
    ensures
        spec_parse_level(spec_ser_level(h, p)) == Ok::<
            (Seq<Seq<Height>>, Seq<Seq<Prefab>>),
            ParseError,
        >((h, p)),
{
    let s = spec_ser_level(h, p);
    let hg = spec_ser_height_grid(h);
    let pg = spec_ser_prefab_grid(p);
    let sep_pg = seq![NL, NL] + pg;
    assert(s == hg + sep_pg) by {
        assert(hg + seq![NL, NL] + pg =~= hg + (seq![NL, NL] + pg));
    }
    assert(s.subrange(0, s.len() as int) =~= s);
    lemma_subrange_split(s, 0, hg, sep_pg);
    lemma_parse_ser_height_grid(s, 0, h);
    let i = hg.len() as int;
    assert(s[0 + hg.len() as int + 0] == sep_pg[0]);
    assert(s[0 + hg.len() as int + 1] == sep_pg[1]);
    assert(s[i] == NL && s[i + 1] == NL);
    assert forall|k: int| 0 <= k < pg.len() implies s.subrange(i + 2, i + 2 + pg.len())[k]
        == pg[k] by {
        assert(sep_pg[k + 2] == pg[k]);
        assert(s[0 + hg.len() as int + (k + 2)] == sep_pg[k + 2]);
        assert(s.subrange(i + 2, i + 2 + pg.len())[k] == s[i + 2 + k]);
    }
    assert(s.subrange(i + 2, i + 2 + pg.len()) =~= pg);
    lemma_parse_ser_prefab_grid(s, i + 2, p);
    assert(i + 2 + pg.len() == s.len());
}

} // verus!
