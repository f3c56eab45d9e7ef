//! Terminal text for a canvas of quantized colours, with 24-bit ANSI colour
//! escape sequences.
use vstd::prelude::*;
use vstd::string::*;
use crate::canvas::Canvas;
use crate::cli::{decimal, push_decimal};

verus! {

/// A colour quantized to integer channels.
#[derive(Debug, Clone, Copy, PartialEq, Eq, Structural)]
pub struct Rgb {
    pub r: u32,
    pub g: u32,
    pub b: u32,
}

/// `ESC [ layer ; 2 ; r ; g ; b m`: sets the foreground (layer 38) or the
/// background (layer 48) colour.
pub open spec fn sgr(layer: Seq<char>, c: Rgb) -> Seq<char> {
    seq!['\u{1b}', '['] + layer + seq![';', '2', ';'] + decimal(c.r as nat) + seq![';']
        + decimal(c.g as nat) + seq![';'] + decimal(c.b as nat) + seq!['m']
}

pub open spec fn foreground() -> Seq<char> {
    seq!['3', '8']
}

pub open spec fn background() -> Seq<char> {
    seq!['4', '8']
}

/// `ESC [ 0 m`: back to the default colours.
pub open spec fn reset() -> Seq<char> {
    seq!['\u{1b}', '[', '0', 'm']
}

/// The first `n` cells of row `y`, one space on the pixel's colour each.
pub open spec fn spaces_row(p: Seq<Rgb>, w: nat, y: nat, n: nat) -> Seq<char>
    decreases n,
{
    if n == 0 {
        seq![]
    } else {
        spaces_row(p, w, y, (n - 1) as nat) + sgr(background(), p[y * w + n - 1]) + seq![' ']
    }
}

/// The first `m` rows, each closed by a reset and a line break.
pub open spec fn spaces_rows(p: Seq<Rgb>, w: nat, m: nat) -> Seq<char>
    decreases m,
{
    if m == 0 {
        seq![]
    } else {
        spaces_rows(p, w, (m - 1) as nat) + spaces_row(p, w, (m - 1) as nat, w) + reset() + seq!['\n']
    }
}

/// The first `n` cells of text line `t`: an upper half block in the colour
/// of row `2t` on the colour of row `2t + 1`.
pub open spec fn half_row(p: Seq<Rgb>, w: nat, t: nat, n: nat) -> Seq<char>
    decreases n,
{
    if n == 0 {
        seq![]
    } else {
        half_row(p, w, t, (n - 1) as nat) + sgr(foreground(), p[2 * t * w + n - 1])
            + sgr(background(), p[(2 * t + 1) * w + n - 1]) + seq!['\u{2580}']
    }
}

pub open spec fn half_rows(p: Seq<Rgb>, w: nat, m: nat) -> Seq<char>
    decreases m,
{
    if m == 0 {
        seq![]
    } else {
        half_rows(p, w, (m - 1) as nat) + half_row(p, w, (m - 1) as nat, w) + reset() + seq!['\n']
    }
}

/// The first `n` cells of a last, unpaired row `y`: upper half blocks alone.
pub open spec fn lone_row(p: Seq<Rgb>, w: nat, y: nat, n: nat) -> Seq<char>
    decreases n,
{
    if n == 0 {
        seq![]
    } else {
        lone_row(p, w, y, (n - 1) as nat) + sgr(foreground(), p[y * w + n - 1]) + seq!['\u{2580}']
    }
}

/// The whole text in half blocks: two rows of pixels to a line of text.
pub open spec fn halfblock_text(p: Seq<Rgb>, w: nat, h: nat) -> Seq<char> {
    reset() + half_rows(p, w, h / 2) + if h % 2 == 1 {
        lone_row(p, w, (h - 1) as nat, w) + reset() + seq!['\n']
    } else {
        seq![]
    }
}

fn push_sgr(out: &mut String, fg: bool, c: Rgb)
    ensures
        final(out)@ == old(out)@ + sgr(if fg { foreground() } else { background() }, c),
{
    proof {
        reveal_strlit("\x1b[");
        reveal_strlit("38");
        reveal_strlit("48");
        reveal_strlit(";2;");
        reveal_strlit(";");
        reveal_strlit("m");
    }
    let ghost start = out@;
    out.append("\x1b[");
    if fg {
        out.append("38");
    } else {
        out.append("48");
    }
    out.append(";2;");
    push_decimal(out, c.r as usize);
    out.append(";");
    push_decimal(out, c.g as usize);
    out.append(";");
    push_decimal(out, c.b as usize);
    out.append("m");
    assert(out@ =~= start + sgr(if fg { foreground() } else { background() }, c));
}

fn push_reset_line(out: &mut String)
    ensures
        final(out)@ == old(out)@ + reset() + seq!['\n'],
{
    proof {
        reveal_strlit("\x1b[0m\n");
    }
    let ghost start = out@;
    out.append("\x1b[0m\n");
    assert(out@ =~= start + reset() + seq!['\n']);
}

fn push_block(out: &mut String)
    ensures
        final(out)@ == old(out)@ + seq!['\u{2580}'],
{
    proof {
        reveal_strlit("\u{2580}");
    }
    out.append("\u{2580}");
}

impl Canvas<Rgb> {
    /// One line of text per row of pixels, each pixel a space on its colour.
    pub fn print_ansi_rgb_spaces(&self) -> (r: String)
        requires
            self.wf(),
        ensures
            r@ == spaces_rows(self.pixels(), self.spec_width(), self.spec_height()),
    {
        let width = self.width();
        let height = self.height();
        let ghost p = self.pixels();
        let ghost w = self.spec_width();
        let mut out = String::new();
        let mut y: usize = 0;
        while y < height
            invariant
                self.wf(),
                p == self.pixels(),
                w == width,
                w == self.spec_width(),
                height == self.spec_height(),
                y <= height,
                out@ == spaces_rows(p, w, y as nat),
            decreases height - y,
        {
            let ghost row_start = out@;
            let mut x: usize = 0;
            while x < width
                invariant
                    self.wf(),
                    p == self.pixels(),
                    w == width,
                    w == self.spec_width(),
                    height == self.spec_height(),
                    y < height,
                    x <= width,
                    out@ == row_start + spaces_row(p, w, y as nat, x as nat),
                decreases width - x,
            {
                let c = self.get(x, y);
                push_sgr(&mut out, false, c);
                proof {
                    reveal_strlit(" ");
                }
                out.append(" ");
                x = x + 1;
                assert(out@ =~= row_start + spaces_row(p, w, y as nat, x as nat));
            }
            push_reset_line(&mut out);
            y = y + 1;
            assert(out@ =~= spaces_rows(p, w, y as nat));
        }
        out
    }

    /// Two rows of pixels to a line of text: an upper half block in the colour
    /// of the upper pixel on the colour of the lower one; an odd last row has
    /// half blocks on the default background.
    pub fn print_ansi_rgb_halfblock(&self) -> (r: String)
        requires
            self.wf(),
        ensures
            r@ == halfblock_text(self.pixels(), self.spec_width(), self.spec_height()),
    {
        let width = self.width();
        let height = self.height();
        let ghost p = self.pixels();
        let ghost w = self.spec_width();
        let mut out = String::new();
        proof {
            reveal_strlit("\x1b[0m");
        }
        out.append("\x1b[0m");
        let mut t: usize = 0;
        while t < height / 2
            invariant
                self.wf(),
                p == self.pixels(),
                w == width,
                w == self.spec_width(),
                height == self.spec_height(),
                t <= height / 2,
                out@ == reset() + half_rows(p, w, t as nat),
            decreases height / 2 - t,
        {
            let ghost row_start = out@;
            let mut x: usize = 0;
            while x < width
                invariant
                    self.wf(),
                    p == self.pixels(),
                    w == width,
                    w == self.spec_width(),
                    height == self.spec_height(),
                    t < height / 2,
                    x <= width,
                    out@ == row_start + half_row(p, w, t as nat, x as nat),
                decreases width - x,
            {
                let upper = self.get(x, 2 * t);
                let lower = self.get(x, 2 * t + 1);
                push_sgr(&mut out, true, upper);
                push_sgr(&mut out, false, lower);
                push_block(&mut out);
                x = x + 1;
                assert(out@ =~= row_start + half_row(p, w, t as nat, x as nat));
            }
            push_reset_line(&mut out);
            t = t + 1;
            assert(out@ =~= reset() + half_rows(p, w, t as nat));
        }
        if height % 2 == 1 {
            let ghost row_start = out@;
            let mut x: usize = 0;
            while x < width
                invariant
                    self.wf(),
                    p == self.pixels(),
                    w == width,
                    w == self.spec_width(),
                    height == self.spec_height(),
                    height % 2 == 1,
                    x <= width,
                    out@ == row_start + lone_row(p, w, (height - 1) as nat, x as nat),
                decreases width - x,
            {
                let c = self.get(x, height - 1);
                push_sgr(&mut out, true, c);
                push_block(&mut out);
                x = x + 1;
                assert(out@ =~= row_start + lone_row(p, w, (height - 1) as nat, x as nat));
            }
            push_reset_line(&mut out);
            assert(out@ =~= halfblock_text(p, w, height as nat));
        } else {
            assert(out@ =~= halfblock_text(p, w, height as nat));
        }
        out
    }
}

} // verus!
