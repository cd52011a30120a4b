//! Rendering: packs each pair of image rows into one line of half-block
//! glyphs with truecolor ANSI escapes, one glyph per column.

use vstd::prelude::*;
use vstd::string::StringExecFns;
use crate::raster::Image;
use crate::raster::Pixel;

verus! {

/// The decimal digit `d` as a character; digits ten and up do not occur.
pub open spec fn digit_char(d: int) -> char {
    if d == 0 {
        '0'
    } else if d == 1 {
        '1'
    } else if d == 2 {
        '2'
    } else if d == 3 {
        '3'
    } else if d == 4 {
        '4'
    } else if d == 5 {
        '5'
    } else if d == 6 {
        '6'
    } else if d == 7 {
        '7'
    } else if d == 8 {
        '8'
    } else {
        '9'
    }
}

/// The decimal digits of a channel value, without leading zeros.
pub open spec fn dec_digits(n: int) -> Seq<char> {
    if n < 10 {
        seq![digit_char(n)]
    } else if n < 100 {
        seq![digit_char(n / 10), digit_char(n % 10)]
    } else {
        seq![digit_char(n / 100), digit_char((n / 10) % 10), digit_char(n % 10)]
    }
}

/// The opening of a truecolor SGR sequence: code 48 selects the
/// background channel, code 38 the foreground channel.
pub open spec fn ansi_prefix(bg: bool) -> Seq<char> {
    if bg {
        seq!['\u{1b}', '[', '4', '8', ';', '2', ';']
    } else {
        seq!['\u{1b}', '[', '3', '8', ';', '2', ';']
    }
}

/// The full truecolor SGR sequence for one 24-bit color.
pub open spec fn ansi_seq(r: u8, g: u8, b: u8, bg: bool) -> Seq<char> {
    ansi_prefix(bg) + dec_digits(r as int) + seq![';'] + dec_digits(g as int) + seq![';']
        + dec_digits(b as int) + seq!['m']
}

/// The SGR reset sequence, emitted once after every colored glyph.
pub open spec fn reset_seq() -> Seq<char> {
    seq!['\u{1b}', '[', '0', 'm']
}

/// The upper half block, drawn when only the top pixel of a pair shows.
pub open spec fn upper_half() -> char {
    '\u{2580}'
}

/// The lower half block, drawn in every other colored case.
pub open spec fn lower_half() -> char {
    '\u{2584}'
}

/// The glyph for one column of a paired row: top pixel `t` over bottom
/// pixel `b`. Both transparent gives a bare space; otherwise the glyph is
/// the upper half block exactly when the bottom pixel is transparent.
pub open spec fn pair_glyph(t: Pixel, b: Pixel) -> Seq<char> {
    if t.a == 0 && b.a == 0 {
        seq![' ']
    } else if t.a != 0 && b.a != 0 {
        ansi_seq(t.r, t.g, t.b, true) + ansi_seq(b.r, b.g, b.b, false) + seq![lower_half()]
            + reset_seq()
    } else if t.a == 0 {
        ansi_seq(b.r, b.g, b.b, false) + seq![lower_half()] + reset_seq()
    } else {
        ansi_seq(t.r, t.g, t.b, false) + seq![upper_half()] + reset_seq()
    }
}

/// The glyph for one column of the final unpaired row of an odd-height
/// image: a space when transparent, else a foreground-colored upper half
/// block.
pub open spec fn odd_glyph(p: Pixel) -> Seq<char> {
    if p.a == 0 {
        seq![' ']
    } else {
        ansi_seq(p.r, p.g, p.b, false) + seq![upper_half()] + reset_seq()
    }
}

/// The first `n` glyphs of the line pairing rows `y` and `y + 1`.
pub open spec fn pair_row_prefix(img: Image, y: int, n: int) -> Seq<char>
    decreases n,
{
    if n <= 0 {
        Seq::empty()
    } else {
        pair_row_prefix(img, y, n - 1) + pair_glyph(img.pix(n - 1, y), img.pix(n - 1, y + 1))
    }
}

/// The whole line pairing rows `y` and `y + 1`.
pub open spec fn pair_row(img: Image, y: int) -> Seq<char> {
    pair_row_prefix(img, y, img.width as int)
}

/// The first `n` glyphs of the final unpaired row.
pub open spec fn odd_row_prefix(img: Image, n: int) -> Seq<char>
    decreases n,
{
    if n <= 0 {
        Seq::empty()
    } else {
        odd_row_prefix(img, n - 1) + odd_glyph(img.pix(n - 1, img.height - 1))
    }
}

/// The whole line for the final unpaired row.
pub open spec fn odd_row(img: Image) -> Seq<char> {
    odd_row_prefix(img, img.width as int)
}

/// How many lines rendering yields: one per full pair of rows, and one
/// more for the unpaired last row of an odd-height image.
pub open spec fn num_lines(img: Image) -> int {
    img.height as int / 2 + img.height as int % 2
}

/// Line `i` of the output.
pub open spec fn line(img: Image, i: int) -> Seq<char> {
    if i < img.height as int / 2 {
        pair_row(img, 2 * i)
    } else {
        odd_row(img)
    }
}

/// The first `k` output lines, joined by single newlines.
pub open spec fn lines_prefix(img: Image, k: int) -> Seq<char>
    decreases k,
{
    if k <= 0 {
        Seq::empty()
    } else if k == 1 {
        line(img, 0)
    } else {
        lines_prefix(img, k - 1) + seq!['\n'] + line(img, k - 1)
    }
}

/// The full rendered output: every line, joined by single newlines, with
/// no leading and no trailing newline.
pub open spec fn render_seq(img: Image) -> Seq<char> {
    lines_prefix(img, num_lines(img))
}

/// One decimal digit as a string slice.
fn digit_str(d: u8) -> (s: &'static str)
    requires
        d < 10,
    ensures
        s@ == seq![digit_char(d as int)],
{
    proof {
        reveal_strlit("0");
        reveal_strlit("1");
        reveal_strlit("2");
        reveal_strlit("3");
        reveal_strlit("4");
        reveal_strlit("5");
        reveal_strlit("6");
        reveal_strlit("7");
        reveal_strlit("8");
        reveal_strlit("9");
    }
    let s: &'static str = if d == 0 {
        "0"
    } else if d == 1 {
        "1"
    } else if d == 2 {
        "2"
    } else if d == 3 {
        "3"
    } else if d == 4 {
        "4"
    } else if d == 5 {
        "5"
    } else if d == 6 {
        "6"
    } else if d == 7 {
        "7"
    } else if d == 8 {
        "8"
    } else {
        "9"
    };
    proof {
        assert(s@ =~= seq![digit_char(d as int)]);
    }
    s
}

/// Appends the decimal digits of `n` to `s`.
fn push_decimal(s: &mut String, n: u8)
    ensures
        final(s)@ == old(s)@ + dec_digits(n as int),
{
    if n < 10 {
        s.append(digit_str(n));
    } else if n < 100 {
        s.append(digit_str(n / 10));
        s.append(digit_str(n % 10));
    } else {
        s.append(digit_str(n / 100));
        s.append(digit_str((n / 10) % 10));
        s.append(digit_str(n % 10));
    }
    proof {
        assert(s@ =~= old(s)@ + dec_digits(n as int));
    }
}

/// Converts RGB into an ANSI truecolor escape sequence, selecting the
/// background channel when `bg` holds and the foreground channel
/// otherwise.
pub fn ansi(r: u8, g: u8, b: u8, bg: bool) -> (s: String)
    ensures
        s@ == ansi_seq(r, g, b, bg),
{
    proof {
        reveal_strlit("\u{1b}[48;2;");
        reveal_strlit("\u{1b}[38;2;");
        reveal_strlit(";");
        reveal_strlit("m");
    }
    let mut s = String::new();
    if bg {
        s.append("\u{1b}[48;2;");
    } else {
        s.append("\u{1b}[38;2;");
    }
    proof {
        assert(s@ =~= ansi_prefix(bg));
    }
    push_decimal(&mut s, r);
    s.append(";");
    push_decimal(&mut s, g);
    s.append(";");
    push_decimal(&mut s, b);
    s.append("m");
    proof {
        assert(s@ =~= ansi_seq(r, g, b, bg));
    }
    s
}

/// Appends the glyph for the pair of pixels `t` over `b`.
fn push_pair_glyph(out: &mut String, t: Pixel, b: Pixel)
    ensures
        final(out)@ == old(out)@ + pair_glyph(t, b),
{
    proof {
        reveal_strlit(" ");
        reveal_strlit("\u{2584}\u{1b}[0m");
        reveal_strlit("\u{2580}\u{1b}[0m");
    }
    if t.a == 0 && b.a == 0 {
        out.append(" ");
        proof {
            assert(out@ =~= old(out)@ + pair_glyph(t, b));
        }
    } else if t.a != 0 && b.a != 0 {
        let e1 = ansi(t.r, t.g, t.b, true);
        out.append(e1.as_str());
        let e2 = ansi(b.r, b.g, b.b, false);
        out.append(e2.as_str());
        out.append("\u{2584}\u{1b}[0m");
        proof {
            assert("\u{2584}\u{1b}[0m"@ =~= seq![lower_half()] + reset_seq());
            assert(out@ =~= old(out)@ + pair_glyph(t, b));
        }
    } else if t.a == 0 {
        let e = ansi(b.r, b.g, b.b, false);
        out.append(e.as_str());
        out.append("\u{2584}\u{1b}[0m");
        proof {
            assert("\u{2584}\u{1b}[0m"@ =~= seq![lower_half()] + reset_seq());
            assert(out@ =~= old(out)@ + pair_glyph(t, b));
        }
    } else {
        let e = ansi(t.r, t.g, t.b, false);
        out.append(e.as_str());
        out.append("\u{2580}\u{1b}[0m");
        proof {
            assert("\u{2580}\u{1b}[0m"@ =~= seq![upper_half()] + reset_seq());
            assert(out@ =~= old(out)@ + pair_glyph(t, b));
        }
    }
}

/// Appends the glyph for one pixel of the final unpaired row.
fn push_odd_glyph(out: &mut String, p: Pixel)
    ensures
        final(out)@ == old(out)@ + odd_glyph(p),
{
    proof {
        reveal_strlit(" ");
        reveal_strlit("\u{2580}\u{1b}[0m");
    }
    if p.a == 0 {
        out.append(" ");
        proof {
            assert(out@ =~= old(out)@ + odd_glyph(p));
        }
    } else {
        let e = ansi(p.r, p.g, p.b, false);
        out.append(e.as_str());
        out.append("\u{2580}\u{1b}[0m");
        proof {
            assert("\u{2580}\u{1b}[0m"@ =~= seq![upper_half()] + reset_seq());
            assert(out@ =~= old(out)@ + odd_glyph(p));
        }
    }
}

/// What the output looks like just before line `i` is written: the lines
/// so far, and a separating newline unless this is the first line.
pub open spec fn line_start(img: Image, i: int) -> Seq<char> {
    if i == 0 {
        Seq::empty()
    } else {
        lines_prefix(img, i) + seq!['\n']
    }
}

/// Does the actual conversion to text: one output line per pair of rows,
/// plus a final line for the unpaired row of an odd-height image.
pub fn render(img: &Image) -> (out: String)
    requires
        img.wf(),
    ensures
        out@ == render_seq(*img),
{
    proof {
        reveal_strlit("\n");
    }
    let mut out = String::new();
    let w = img.width;
    let h = img.height;
    let pairs = h / 2;

    let mut i: usize = 0;
    while i < pairs
        invariant
            img.wf(),
            w == img.width,
            h == img.height,
            pairs == h / 2,
            i <= pairs,
            out@ == lines_prefix(*img, i as int),
            "\n"@ == seq!['\n'],
        decreases pairs - i,
    {
        if i > 0 {
            out.append("\n");
        }
        proof {
            assert(out@ =~= line_start(*img, i as int));
        }
        let mut x: usize = 0;
        while x < w
            invariant
                img.wf(),
                w == img.width,
                h == img.height,
                pairs == h / 2,
                i < pairs,
                x <= w,
                out@ == line_start(*img, i as int) + pair_row_prefix(*img, 2 * i, x as int),
            decreases w - x,
        {
            let t = img.get_pixel(x, 2 * i);
            let b = img.get_pixel(x, 2 * i + 1);
            push_pair_glyph(&mut out, t, b);
            proof {
                assert(out@ =~= line_start(*img, i as int) + pair_row_prefix(
                    *img,
                    2 * i,
                    x as int + 1,
                ));
            }
            x = x + 1;
        }
        proof {
            assert(pair_row_prefix(*img, 2 * i, w as int) == pair_row(*img, 2 * i));
            assert(line(*img, i as int) == pair_row(*img, 2 * i));
            assert(out@ =~= lines_prefix(*img, i as int + 1));
        }
        i = i + 1;
    }

    if h % 2 == 1 {
        if pairs > 0 {
            out.append("\n");
        }
        proof {
            assert(out@ =~= line_start(*img, pairs as int));
        }
        let mut x: usize = 0;
        while x < w
            invariant
                img.wf(),
                w == img.width,
                h == img.height,
                pairs == h / 2,
                h % 2 == 1,
                x <= w,
                out@ == line_start(*img, pairs as int) + odd_row_prefix(*img, x as int),
            decreases w - x,
        {
            let p = img.get_pixel(x, h - 1);
            push_odd_glyph(&mut out, p);
            proof {
                assert(out@ =~= line_start(*img, pairs as int) + odd_row_prefix(
                    *img,
                    x as int + 1,
                ));
            }
            x = x + 1;
        }
        proof {
            assert(line(*img, pairs as int) == odd_row(*img));
            assert(out@ =~= lines_prefix(*img, pairs as int + 1));
            assert(num_lines(*img) == pairs as int + 1);
        }
    } else {
        proof {
            assert(num_lines(*img) == pairs as int);
        }
    }
    out
}

/// No character of `s` is a newline.
pub open spec fn is_newline_free(s: Seq<char>) -> bool {
    forall|i: int| 0 <= i < s.len() ==> s[i] != '\n'
}

/// How many newline characters `s` holds.
pub open spec fn newline_count(s: Seq<char>) -> int
    decreases s.len(),
{
    if s.len() == 0 {
        0
    } else {
        newline_count(s.drop_last()) + if s.last() == '\n' {
            1int
        } else {
            0int
        }
    }
}

/// Newlines are counted piecewise over concatenation.
pub proof fn lemma_newline_count_concat(a: Seq<char>, b: Seq<char>)
    ensures
        newline_count(a + b) == newline_count(a) + newline_count(b),
    decreases b.len(),
{
    if b.len() == 0 {
        assert(a + b =~= a);
    } else {
        assert((a + b).drop_last() =~= a + b.drop_last());
        assert((a + b).last() == b.last());
        lemma_newline_count_concat(a, b.drop_last());
    }
}

/// A sequence without newline characters counts zero newlines.
pub proof fn lemma_newline_free_count(s: Seq<char>)
    requires
        is_newline_free(s),
    ensures
        newline_count(s) == 0,
    decreases s.len(),
{
    if s.len() > 0 {
        assert(is_newline_free(s.drop_last()));
        lemma_newline_free_count(s.drop_last());
    }
}

/// Concatenation keeps sequences free of newlines.
pub proof fn lemma_newline_free_concat(a: Seq<char>, b: Seq<char>)
    requires
        is_newline_free(a),
        is_newline_free(b),
    ensures
        is_newline_free(a + b),
{
    assert forall|i: int| 0 <= i < (a + b).len() implies (a + b)[i] != '\n' by {
        if i < a.len() {
            assert((a + b)[i] == a[i]);
        } else {
            assert((a + b)[i] == b[i - a.len()]);
        }
    }
}

/// An SGR color sequence holds no newline.
pub proof fn lemma_ansi_newline_free(r: u8, g: u8, b: u8, bg: bool)
    ensures
        is_newline_free(ansi_seq(r, g, b, bg)),
{
    assert(forall|d: int| digit_char(d) != '\n');
    assert(is_newline_free(ansi_prefix(bg)));
    assert(is_newline_free(dec_digits(r as int)));
    assert(is_newline_free(dec_digits(g as int)));
    assert(is_newline_free(dec_digits(b as int)));
    assert(is_newline_free(seq![';']));
    assert(is_newline_free(seq!['m']));
    let s1 = ansi_prefix(bg) + dec_digits(r as int);
    lemma_newline_free_concat(ansi_prefix(bg), dec_digits(r as int));
    let s2 = s1 + seq![';'];
    lemma_newline_free_concat(s1, seq![';']);
    let s3 = s2 + dec_digits(g as int);
    lemma_newline_free_concat(s2, dec_digits(g as int));
    let s4 = s3 + seq![';'];
    lemma_newline_free_concat(s3, seq![';']);
    let s5 = s4 + dec_digits(b as int);
    lemma_newline_free_concat(s4, dec_digits(b as int));
    lemma_newline_free_concat(s5, seq!['m']);
}

/// No glyph of a paired row holds a newline.
pub proof fn lemma_pair_glyph_newline_free(t: Pixel, b: Pixel)
    ensures
        is_newline_free(pair_glyph(t, b)),
{
    lemma_ansi_newline_free(t.r, t.g, t.b, true);
    lemma_ansi_newline_free(t.r, t.g, t.b, false);
    lemma_ansi_newline_free(b.r, b.g, b.b, false);
    assert(is_newline_free(seq![' ']));
    assert(is_newline_free(seq![upper_half()]));
    assert(is_newline_free(seq![lower_half()]));
    assert(is_newline_free(reset_seq()));
    if t.a == 0 && b.a == 0 {
    } else if t.a != 0 && b.a != 0 {
        let s1 = ansi_seq(t.r, t.g, t.b, true) + ansi_seq(b.r, b.g, b.b, false);
        lemma_newline_free_concat(ansi_seq(t.r, t.g, t.b, true), ansi_seq(b.r, b.g, b.b, false));
        let s2 = s1 + seq![lower_half()];
        lemma_newline_free_concat(s1, seq![lower_half()]);
        lemma_newline_free_concat(s2, reset_seq());
    } else if t.a == 0 {
        let s1 = ansi_seq(b.r, b.g, b.b, false) + seq![lower_half()];
        lemma_newline_free_concat(ansi_seq(b.r, b.g, b.b, false), seq![lower_half()]);
        lemma_newline_free_concat(s1, reset_seq());
    } else {
        let s1 = ansi_seq(t.r, t.g, t.b, false) + seq![upper_half()];
        lemma_newline_free_concat(ansi_seq(t.r, t.g, t.b, false), seq![upper_half()]);
        lemma_newline_free_concat(s1, reset_seq());
    }
}

/// No glyph of the final unpaired row holds a newline.
pub proof fn lemma_odd_glyph_newline_free(p: Pixel)
    ensures
        is_newline_free(odd_glyph(p)),
{
    lemma_ansi_newline_free(p.r, p.g, p.b, false);
    assert(is_newline_free(seq![' ']));
    assert(is_newline_free(seq![upper_half()]));
    assert(is_newline_free(reset_seq()));
    if p.a != 0 {
        let s1 = ansi_seq(p.r, p.g, p.b, false) + seq![upper_half()];
        lemma_newline_free_concat(ansi_seq(p.r, p.g, p.b, false), seq![upper_half()]);
        lemma_newline_free_concat(s1, reset_seq());
    }
}

/// No line of the output holds a newline.
pub proof fn lemma_pair_row_prefix_newline_free(img: Image, y: int, n: int)
    ensures
        is_newline_free(pair_row_prefix(img, y, n)),
    decreases n,
{
    if n > 0 {
        lemma_pair_row_prefix_newline_free(img, y, n - 1);
        lemma_pair_glyph_newline_free(img.pix(n - 1, y), img.pix(n - 1, y + 1));
    }
}

/// No glyph of the final unpaired row prefix holds a newline.
pub proof fn lemma_odd_row_prefix_newline_free(img: Image, n: int)
    ensures
        is_newline_free(odd_row_prefix(img, n)),
    decreases n,
{
    if n > 0 {
        lemma_odd_row_prefix_newline_free(img, n - 1);
        lemma_odd_glyph_newline_free(img.pix(n - 1, img.height - 1));
    }
}

/// Each single output line is free of newlines.
pub proof fn lemma_line_newline_free(img: Image, i: int)
    ensures
        is_newline_free(line(img, i)),
{
    lemma_pair_row_prefix_newline_free(img, 2 * i, img.width as int);
    lemma_odd_row_prefix_newline_free(img, img.width as int);
}

/// The first `k` lines joined hold exactly `k - 1` newlines.
pub proof fn lemma_lines_prefix_newline_count(img: Image, k: int)
    requires
        k >= 1,
    ensures
        newline_count(lines_prefix(img, k)) == k - 1,
    decreases k,
{
    if k == 1 {
        lemma_line_newline_free(img, 0);
        lemma_newline_free_count(line(img, 0));
    } else {
        lemma_lines_prefix_newline_count(img, k - 1);
        lemma_line_newline_free(img, k - 1);
        lemma_newline_free_count(line(img, k - 1));
        lemma_newline_count_concat(lines_prefix(img, k - 1), seq!['\n']);
        lemma_newline_count_concat(lines_prefix(img, k - 1) + seq!['\n'], line(img, k - 1));
        assert(newline_count(seq!['\n']) == 1) by {
            let s = seq!['\n'];
            assert(s.drop_last() =~= Seq::<char>::empty());
            assert(newline_count(Seq::<char>::empty()) == 0);
            assert(s.last() == '\n');
        }
    }
}

/// Render line count: the output of an image of height H consists of
/// floor(H/2) paired lines, plus one trailing line when H is odd, joined
/// by single newlines; so it holds exactly one newline fewer than it has
/// lines, none of which holds a newline of its own.
pub proof fn lemma_render_line_count(img: Image)
    ensures
        num_lines(img) == img.height as int / 2 + img.height as int % 2,
        forall|i: int| 0 <= i < num_lines(img) ==> is_newline_free(#[trigger] line(img, i)),
        newline_count(render_seq(img)) == if num_lines(img) == 0 {
            0int
        } else {
            num_lines(img) - 1
        },
{
    assert forall|i: int| 0 <= i < num_lines(img) implies is_newline_free(
        #[trigger] line(img, i),
    ) by {
        lemma_line_newline_free(img, i);
    }
    if num_lines(img) == 0 {
        assert(render_seq(img) == Seq::<char>::empty());
    } else {
        lemma_lines_prefix_newline_count(img, num_lines(img));
    }
}

/// Rendering is deterministic: any two outputs that satisfy render's
/// contract for the same image are equal, byte for byte.
pub proof fn lemma_render_deterministic(img: Image, s1: Seq<char>, s2: Seq<char>)
    requires
        s1 == render_seq(img),
        s2 == render_seq(img),
    ensures
        s1 == s2,
{
}

} // verus!
