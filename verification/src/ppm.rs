//! The textual image format and its serializer.
//!
//! The serialized form is a header of three lines — the magic `P3`, the
//! width and height, and the maximal channel value 255 — followed by every
//! pixel in row-major order, each written as three space-separated decimal
//! channel values. A running column counter wraps the stream of color
//! tokens onto a new line before a token that would reach the 70-character
//! soft limit (checked against 69), or once the counter exceeds the width
//! times the token's length plus its separator; a token is never split
//! across lines. The buffer ends with exactly one newline.

use vstd::prelude::*;

verus! {

use crate::canvas::{Canvas, Color};
use crate::channel::scaled_channel;

/// The decimal digits of `n`, as ASCII bytes, most significant first.
pub open spec fn decimal(n: nat) -> Seq<u8>
    decreases n,
{
    if n < 10 {
        seq![(48 + n) as u8]
    } else {
        decimal(n / 10).push((48 + n % 10) as u8)
    }
}

/// One color as a serialized token: `R G B` in decimal.
pub open spec fn triplet(c: Color) -> Seq<u8> {
    decimal(scaled_channel(c.red) as nat) + seq![32u8] + decimal(scaled_channel(c.green) as nat)
        + seq![32u8] + decimal(scaled_channel(c.blue) as nat)
}

/// The header: `P3`, then `<width> <height>`, then `255`, one per line.
pub open spec fn header_bytes(width: nat, height: nat) -> Seq<u8> {
    seq![80u8, 51u8, 10u8] + decimal(width) + seq![32u8] + decimal(height) + seq![
        10u8,
        50u8,
        53u8,
        53u8,
        10u8,
    ]
}

/// The pixel tokens from `colors` on, wrapped onto lines, with `counter`
/// characters already on the current line. Before each token: a newline when
/// the counter exceeds `width` tokens' worth of characters (the token's
/// length plus its separator) or the token (plus a separating space) would
/// reach column 69; otherwise a space, except at column zero. The counter
/// then advances by the token's length plus one.
pub open spec fn wrapped_body(colors: Seq<Color>, width: nat, counter: nat) -> Seq<u8>
    decreases colors.len(),
{
    if colors.len() == 0 {
        Seq::empty()
    } else {
        let t = triplet(colors[0]);
        let rest = colors.subrange(1, colors.len() as int);
        if counter > width * (t.len() + 1) || counter + t.len() + 1 >= 69 {
            seq![10u8] + t + wrapped_body(rest, width, t.len() + 1)
        } else if counter != 0 {
            seq![32u8] + t + wrapped_body(rest, width, counter + t.len() + 1)
        } else {
            t + wrapped_body(rest, width, counter + t.len() + 1)
        }
    }
}

/// `s` unchanged when it already ends with a newline, else with one appended.
pub open spec fn with_trailing_newline(s: Seq<u8>) -> Seq<u8> {
    if s.len() > 0 && s[s.len() - 1] == 10u8 {
        s
    } else {
        s.push(10u8)
    }
}

/// The whole serialized image of a canvas.
pub open spec fn ppm_bytes(width: nat, height: nat, colors: Seq<Color>) -> Seq<u8> {
    with_trailing_newline(header_bytes(width, height) + wrapped_body(colors, width, 0))
}

/// `s` ends with a newline byte not preceded by another newline.
pub open spec fn ends_with_single_newline(s: Seq<u8>) -> bool {
    &&& s.len() > 0
    &&& s[s.len() - 1] == 10u8
    &&& (s.len() >= 2 ==> s[s.len() - 2] != 10u8)
}

proof fn lemma_decimal_len(n: nat)
    ensures
        1 <= decimal(n).len(),
        n < 10 ==> decimal(n).len() == 1,
        n < 100 ==> decimal(n).len() <= 2,
        n < 1000 ==> decimal(n).len() <= 3,
    decreases n,
{
    if n >= 10 {
        lemma_decimal_len(n / 10);
    }
}

proof fn lemma_decimal_digits(n: nat)
    ensures
        forall|i: int| 0 <= i < decimal(n).len() ==> 48 <= #[trigger] decimal(n)[i] <= 57,
    decreases n,
{
    if n >= 10 {
        lemma_decimal_digits(n / 10);
        assert forall|i: int| 0 <= i < decimal(n).len() implies 48 <= #[trigger] decimal(n)[i]
            <= 57 by {
            if i < decimal(n / 10).len() {
                assert(decimal(n)[i] == decimal(n / 10)[i]);
            }
        }
    }
}

/// A token is 5 to 11 bytes and ends with a decimal digit.
proof fn lemma_triplet(c: Color)
    ensures
        5 <= triplet(c).len() <= 11,
        48 <= triplet(c)[triplet(c).len() - 1] <= 57,
{
    lemma_decimal_len(scaled_channel(c.red) as nat);
    lemma_decimal_len(scaled_channel(c.green) as nat);
    lemma_decimal_len(scaled_channel(c.blue) as nat);
    lemma_decimal_digits(scaled_channel(c.blue) as nat);
    let b = decimal(scaled_channel(c.blue) as nat);
    assert(triplet(c)[triplet(c).len() - 1] == b[b.len() - 1]);
}

/// A non-empty pixel body is non-empty as bytes and ends with a digit.
proof fn lemma_wrapped_body_last(colors: Seq<Color>, width: nat, counter: nat)
    requires
        colors.len() > 0,
    ensures
        wrapped_body(colors, width, counter).len() >= 1,
        48 <= wrapped_body(colors, width, counter)[wrapped_body(colors, width, counter).len() - 1]
            <= 57,
    decreases colors.len(),
{
    let t = triplet(colors[0]);
    let rest = colors.subrange(1, colors.len() as int);
    lemma_triplet(colors[0]);
    if rest.len() == 0 {
        assert(wrapped_body(rest, width, t.len() + 1).len() == 0);
        assert(wrapped_body(rest, width, counter + t.len() + 1).len() == 0);
        let w = wrapped_body(colors, width, counter);
        if counter > width * (t.len() + 1) || counter + t.len() + 1 >= 69 {
            assert(w =~= seq![10u8] + t + wrapped_body(rest, width, t.len() + 1));
        } else if counter != 0 {
            assert(w =~= seq![32u8] + t + wrapped_body(rest, width, counter + t.len() + 1));
        } else {
            assert(w =~= t + wrapped_body(rest, width, counter + t.len() + 1));
        }
        assert(w[w.len() - 1] == t[t.len() - 1]);
    } else {
        if counter > width * (t.len() + 1) || counter + t.len() + 1 >= 69 {
            lemma_wrapped_body_last(rest, width, t.len() + 1);
        } else {
            lemma_wrapped_body_last(rest, width, counter + t.len() + 1);
        }
    }
}

/// The serialized image always ends with exactly one newline, whether or not
/// the bytes before it already ended with one.
pub proof fn lemma_serialized_ends_with_single_newline(width: nat, height: nat, colors: Seq<Color>)
    ensures
        ends_with_single_newline(ppm_bytes(width, height, colors)),
{
    let h = header_bytes(width, height);
    let b = wrapped_body(colors, width, 0);
    let s = h + b;
    lemma_decimal_len(height);
    if colors.len() == 0 {
        assert(b.len() == 0);
        assert(s =~= h);
        assert(s[s.len() - 1] == 10u8);
        assert(s[s.len() - 2] == 53u8);
    } else {
        lemma_wrapped_body_last(colors, width, 0);
        assert(s[s.len() - 1] == b[b.len() - 1]);
        assert(s[s.len() - 1] != 10u8);
        let r = with_trailing_newline(s);
        assert(r == s.push(10u8));
        assert(r[r.len() - 2] == s[s.len() - 1]);
    }
}

/// Appends the decimal digits of `n`.
fn push_decimal(buffer: &mut Vec<u8>, n: usize)
    ensures
        final(buffer)@ == old(buffer)@ + decimal(n as nat),
    decreases n,
{
    if n >= 10 {
        push_decimal(buffer, n / 10);
    }
    buffer.push(48 + (n % 10) as u8);
    proof {
        assert(buffer@ =~= old(buffer)@ + decimal(n as nat));
    }
}

/// Appends one color's `R G B` token.
fn push_triplet(buffer: &mut Vec<u8>, c: &Color)
    ensures
        final(buffer)@ == old(buffer)@ + triplet(*c),
{
    let (r, g, b) = c.get_rgb();
    push_decimal(buffer, r as usize);
    buffer.push(32);
    push_decimal(buffer, g as usize);
    buffer.push(32);
    push_decimal(buffer, b as usize);
    proof {
        assert(buffer@ =~= old(buffer)@ + triplet(*c));
    }
}

/// The serialized image, held as bytes.
pub struct Ppm(Vec<u8>);

impl View for Ppm {
    type V = Seq<u8>;

    closed spec fn view(&self) -> Seq<u8> {
        self.0@
    }
}

impl Ppm {
    /// The serialized bytes.
    pub fn bytes(&self) -> (b: &Vec<u8>)
        ensures
            b@ == self@,
    {
        &self.0
    }

    /// Serializes a canvas: header, wrapped pixel tokens, final newline.
    pub fn stringify(cv: &Canvas) -> (p: Ppm)
        ensures
            p@ == ppm_bytes(cv.spec_width(), cv.spec_height(), cv@),
    {
        let mut ppm: Vec<u8> = Vec::new();
        Self::header(&mut ppm, cv);
        Self::serialize_colors(&mut ppm, cv);
        Self::ends_with_new_line(&mut ppm);
        Ppm(ppm)
    }

    /// Appends the three header lines: `P3`, `<width> <height>`, `255`.
    fn header(buffer: &mut Vec<u8>, cv: &Canvas)
        ensures
            final(buffer)@ == old(buffer)@ + header_bytes(cv.spec_width(), cv.spec_height()),
    {
        buffer.push(80);
        buffer.push(51);
        buffer.push(10);
        push_decimal(buffer, cv.get_width());
        buffer.push(32);
        push_decimal(buffer, cv.get_height());
        buffer.push(10);
        buffer.push(50);
        buffer.push(53);
        buffer.push(53);
        buffer.push(10);
        proof {
            assert(buffer@ =~= old(buffer)@ + header_bytes(cv.spec_width(), cv.spec_height()));
        }
    }

    /// Appends every pixel's token in row-major order, wrapping lines as
    /// `wrapped_body` says, starting from an empty current line.
    fn serialize_colors(buffer: &mut Vec<u8>, cv: &Canvas)
        ensures
            final(buffer)@ == old(buffer)@ + wrapped_body(cv@, cv.spec_width(), 0),
    {
        let ghost orig: Seq<u8> = buffer@;
        let width = cv.get_width();
        let n = cv.len();
        let mut counter: usize = 0;
        let mut i: usize = 0;
        proof {
            assert(cv@.subrange(0, cv@.len() as int) =~= cv@);
        }
        while i < n
            invariant
                n == cv@.len(),
                width == cv.spec_width(),
                i <= n,
                counter <= 68,
                buffer@ + wrapped_body(
                    cv@.subrange(i as int, cv@.len() as int),
                    cv.spec_width(),
                    counter as nat,
                ) == orig + wrapped_body(cv@, cv.spec_width(), 0),
            decreases n - i,
        {
            let ghost pre = buffer@;
            let ghost rest = cv@.subrange(i as int, cv@.len() as int);
            let ghost rest2 = cv@.subrange(i as int + 1, cv@.len() as int);
            let c = cv.color_at(i);
            let mut rgb: Vec<u8> = Vec::new();
            push_triplet(&mut rgb, &c);
            let rgb_len = rgb.len();
            proof {
                assert(rgb@ =~= triplet(c));
                lemma_triplet(c);
                assert(rest[0] == c);
                assert(rest.subrange(1, rest.len() as int) =~= rest2);
                if width > 68 {
                    assert(width * (rgb_len + 1) >= 69 * 6) by (nonlinear_arith)
                        requires
                            width >= 69,
                            rgb_len >= 5,
                    ;
                } else {
                    assert(width * (rgb_len + 1) <= 68 * 12) by (nonlinear_arith)
                        requires
                            width <= 68,
                            rgb_len <= 11,
                    ;
                }
            }
            let ghost counter0: nat = counter as nat;
            let wrap = (width <= 68 && counter > width * (rgb_len + 1)) || counter + rgb_len + 1
                >= 69;
            proof {
                assert(wrap == (counter0 > cv.spec_width() * (triplet(c).len() + 1) || counter0
                    + triplet(c).len() + 1 >= 69));
            }
            if wrap {
                buffer.push(10);
                counter = 0;
            }
            if counter != 0 {
                buffer.push(32);
            }
            counter = counter + rgb_len + 1;
            buffer.append(&mut rgb);
            i = i + 1;
            proof {
                let w = cv.spec_width();
                let t = triplet(c);
                if wrap {
                    assert(wrapped_body(rest, w, counter0) == seq![10u8] + t + wrapped_body(
                        rest2,
                        w,
                        t.len() + 1,
                    ));
                    assert(buffer@ =~= pre + (seq![10u8] + t));
                } else if counter0 != 0 {
                    assert(wrapped_body(rest, w, counter0) == seq![32u8] + t + wrapped_body(
                        rest2,
                        w,
                        counter0 + t.len() + 1,
                    ));
                    assert(buffer@ =~= pre + (seq![32u8] + t));
                } else {
                    assert(wrapped_body(rest, w, counter0) == t + wrapped_body(
                        rest2,
                        w,
                        counter0 + t.len() + 1,
                    ));
                    assert(buffer@ =~= pre + t);
                }
                assert(buffer@ + wrapped_body(rest2, w, counter as nat) =~= pre + wrapped_body(
                    rest,
                    w,
                    counter0,
                ));
            }
        }
        proof {
            assert(cv@.subrange(i as int, cv@.len() as int).len() == 0);
            assert(buffer@ =~= buffer@ + wrapped_body(
                cv@.subrange(i as int, cv@.len() as int),
                cv.spec_width(),
                counter as nat,
            ));
        }
    }

    /// Appends a newline unless the buffer already ends with one.
    pub fn ends_with_new_line(buffer: &mut Vec<u8>)
        ensures
            final(buffer)@ == with_trailing_newline(old(buffer)@),
    {
        let n = buffer.len();
        if n == 0 || buffer[n - 1] != 10 {
            buffer.push(10);
        }
    }
}

} // verus!
