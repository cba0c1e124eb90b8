use vstd::prelude::*;
use vstd::string::StringExecFns;

verus! {

/// Number of filled eighth-cells for the fraction `num / den`, clamped to
/// [0, 1], over `width` cells.
pub open spec fn spec_eighths(num: u64, den: u64, width: u32) -> int {
    let n = if num > den { den as int } else { num as int };
    n * 8 * width / (den as int)
}

/// The glyph for a cell filled to `k` eighths, `1 <= k <= 7`.
pub open spec fn partial_glyph(k: int) -> char {
    if k == 1 {
        '\u{258F}'
    } else if k == 2 {
        '\u{258E}'
    } else if k == 3 {
        '\u{258D}'
    } else if k == 4 {
        '\u{258C}'
    } else if k == 5 {
        '\u{258B}'
    } else if k == 6 {
        '\u{258A}'
    } else {
        '\u{2589}'
    }
}

/// The glyph of a completely filled cell.
pub open spec fn full_glyph() -> char {
    '\u{2588}'
}

/// A bar of `width` cells with `e` eighths filled: full cells, then at most
/// one partial cell, then blanks.
pub open spec fn bar_chars(e: int, width: int) -> Seq<char> {
    Seq::new(
        width as nat,
        |i: int|
            if i < e / 8 {
                full_glyph()
            } else if i == e / 8 && e % 8 != 0 {
                partial_glyph(e % 8)
            } else {
                ' '
            },
    )
}

/// Number of filled eighth-cells for the fraction `num / den` over `width` cells.
pub fn eighths(num: u64, den: u64, width: u32) -> (r: u128)
    requires
        den >= 1,
    ensures
        r == spec_eighths(num, den, width),
        r <= 8 * width,
{
    let n: u64 = if num > den { den } else { num };
    proof {
        assert((n as int) * 8 * (width as int) / (den as int) <= 8 * width) by (nonlinear_arith)
            requires
                n <= den,
                den >= 1,
                width >= 0,
        ;
        assert((n as int) * 8 * (width as int) <= u64::MAX * 8 * u32::MAX) by (nonlinear_arith)
            requires
                0 <= n <= u64::MAX,
                0 <= width <= u32::MAX,
        ;
    }
    (n as u128) * 8 * (width as u128) / (den as u128)
}

fn glyph(e: u128, i: u32) -> (r: &'static str)
    ensures
        r@ == seq![bar_chars(e as int, i + 1)[i as int]],
{
    let full = e / 8;
    let part = e % 8;
    if (i as u128) < full {
        proof { reveal_strlit("\u{2588}"); }
        "\u{2588}"
    } else if (i as u128) == full && part != 0 {
        if part == 1 {
            proof { reveal_strlit("\u{258F}"); }
            "\u{258F}"
        } else if part == 2 {
            proof { reveal_strlit("\u{258E}"); }
            "\u{258E}"
        } else if part == 3 {
            proof { reveal_strlit("\u{258D}"); }
            "\u{258D}"
        } else if part == 4 {
            proof { reveal_strlit("\u{258C}"); }
            "\u{258C}"
        } else if part == 5 {
            proof { reveal_strlit("\u{258B}"); }
            "\u{258B}"
        } else if part == 6 {
            proof { reveal_strlit("\u{258A}"); }
            "\u{258A}"
        } else {
            proof { reveal_strlit("\u{2589}"); }
            "\u{2589}"
        }
    } else {
        proof { reveal_strlit(" "); }
        " "
    }
}

/// Renders the fraction `num / den`, clamped to [0, 1], as a bar of exactly
/// `width` cells, with eighth-cell resolution.
pub fn render_bar(num: u64, den: u64, width: u32) -> (r: String)
    requires
        den >= 1,
    ensures
        r@ == bar_chars(spec_eighths(num, den, width), width as int),
{
    let e = eighths(num, den, width);
    let mut out = String::new();
    let mut i: u32 = 0;
    while i < width
        invariant
            i <= width,
            e == spec_eighths(num, den, width),
            out@ == bar_chars(e as int, width as int).take(i as int),
        decreases width - i,
    {
        let g = glyph(e, i);
        out.append(g);
        proof {
            assert(out@ =~= bar_chars(e as int, width as int).take(i + 1));
        }
        i = i + 1;
    }
    proof {
        assert(out@ =~= bar_chars(e as int, width as int));
    }
    out
}

/// A zero fraction renders as an empty bar, a whole one as a full bar, and
/// the filled part never shrinks as the fraction grows.
pub proof fn lemma_bar_bounds_and_monotone(num1: u64, num2: u64, den: u64, width: u32)
    requires
        den >= 1,
        num1 <= num2,
    ensures
        bar_chars(spec_eighths(0, den, width), width as int) =~= Seq::new(width as nat, |i: int| ' '),
        bar_chars(spec_eighths(den, den, width), width as int) =~= Seq::new(
            width as nat,
            |i: int| full_glyph(),
        ),
        spec_eighths(num1, den, width) <= spec_eighths(num2, den, width),
{
    let w = width as int;
    let d = den as int;
    assert(0 * 8 * w / d == 0) by (nonlinear_arith)
        requires
            d >= 1,
    ;
    assert(d * 8 * w / d == 8 * w) by (nonlinear_arith)
        requires
            d >= 1,
    ;
    assert((8 * w) / 8 == w && (8 * w) % 8 == 0);
    let n1 = if num1 > den { d } else { num1 as int };
    let n2 = if num2 > den { d } else { num2 as int };
    assert(n1 * 8 * w / d <= n2 * 8 * w / d) by (nonlinear_arith)
        requires
            0 <= n1 <= n2,
            d >= 1,
            w >= 0,
    ;
}

} // verus!
