use vstd::prelude::*;
use vstd::arithmetic::div_mod::lemma_fundamental_div_mod_converse;
use vstd::arithmetic::div_mod::lemma_fundamental_div_mod;
use crate::config::AppConfig;
use crate::menu::{in_menu_order, menu_rank};
use crate::metrics::{is_sample_for, kind_label, MetricKind, MetricSample, MetricSnapshot, MetricStatus, Readings};
use crate::percent::{clamp_percent, clamped_percent, percent_digits, push_percent_digits};
use crate::text::{
    chars_of, char_utf8_width, push_str, strip_leading, strip_leading_chars, trim,
    trim_chars, trim_end, trim_start, utf8_len,
};

verus! {

/// A colour with straight alpha, one byte per channel.
#[derive(Clone, Copy, Debug, PartialEq, Eq, Structural)]
pub struct Rgba {
    pub r: u8,
    pub g: u8,
    pub b: u8,
    pub a: u8,
}

/// Channel `k` of `c` in RGBA byte order.
pub open spec fn channel(c: Rgba, k: int) -> u8 {
    if k == 0 {
        c.r
    } else if k == 1 {
        c.g
    } else if k == 2 {
        c.b
    } else {
        c.a
    }
}

/// Whether the pixel at column `px`, row `py` lies in the rectangle.
pub open spec fn in_rect(px: int, py: int, x: int, y: int, w: int, h: int) -> bool {
    x <= px < x + w && y <= py < y + h
}

/// The RGBA buffer `pixels` of a `width`-pixel-wide image after painting the
/// rectangle at (`x`, `y`) of size `w` x `h` with `color`; the parts of the
/// rectangle outside the image are dropped.
pub open spec fn filled(
    pixels: Seq<u8>,
    width: int,
    x: int,
    y: int,
    w: int,
    h: int,
    color: Rgba,
) -> Seq<u8> {
    Seq::new(
        pixels.len(),
        |i: int|
            if in_rect((i / 4) % width, (i / 4) / width, x, y, w, h) {
                channel(color, i % 4)
            } else {
                pixels[i]
            },
    )
}

/// An RGBA pixel buffer, rows top to bottom, four bytes per pixel.
pub struct Canvas {
    pub width: u32,
    pub height: u32,
    pub pixels: Vec<u8>,
}

impl Canvas {
    /// The buffer holds exactly `width * height` pixels and its byte length fits in `u32`.
    pub open spec fn wf(&self) -> bool {
        &&& self.width * self.height * 4 <= u32::MAX
        &&& self.pixels@.len() == self.width * self.height * 4
    }

    /// A fully transparent black canvas.
    pub fn new(width: u32, height: u32) -> (c: Canvas)
        requires
            width * height * 4 <= u32::MAX,
        ensures
            c.wf(),
            c.width == width,
            c.height == height,
            c.pixels@ == Seq::new((width * height * 4) as nat, |i: int| 0u8),
    {
        assert(width * height * 4 <= u32::MAX);
        let n: u32 = width * height * 4;
        let mut pixels: Vec<u8> = Vec::new();
        let mut i: u32 = 0;
        while i < n
            invariant
                i <= n,
                pixels@ == Seq::new(i as nat, |k: int| 0u8),
            decreases n - i,
        {
            pixels.push(0u8);
            i = i + 1;
        }
        Canvas { width, height, pixels }
    }

    /// Paints the rectangle at (`x`, `y`) of size `width` x `height` with `color`,
    /// clipped to the canvas.
    pub fn fill_rect(&mut self, x: u32, y: u32, width: u32, height: u32, color: Rgba)
        requires
            old(self).wf(),
            x + width <= u32::MAX,
            y + height <= u32::MAX,
        ensures
            final(self).wf(),
            final(self).width == old(self).width,
            final(self).height == old(self).height,
            final(self).pixels@ == filled(
                old(self).pixels@,
                old(self).width as int,
                x as int,
                y as int,
                width as int,
                height as int,
                color,
            ),
    {
        let ghost start = self.pixels@;
        let cw = self.width;
        let ch = self.height;
        let max_x = if x + width < cw { x + width } else { cw };
        let max_y = if y + height < ch { y + height } else { ch };
        let mut py = y;
        while py < max_y
            invariant
                self.wf(),
                self.width == cw,
                self.height == ch,
                y <= py,
                max_y <= ch,
                max_x <= cw,
                max_x == (if x + width < cw { x + width } else { cw as int }),
                max_y == (if y + height < ch { y + height } else { ch as int }),
                py >= max_y ==> py == y || py == max_y,
                py <= max_y || py == y,
                self.pixels@ == filled(start, cw as int, x as int, y as int, width as int, (py - y) as int, color),
            decreases max_y - py,
        {
            let mut px = x;
            let ghost row_start = self.pixels@;
            while px < max_x
                invariant
                    self.wf(),
                    self.width == cw,
                    self.height == ch,
                    y <= py < max_y,
                    max_y <= ch,
                    max_x <= cw,
                    max_x == (if x + width < cw { x + width } else { cw as int }),
                    x <= px,
                    px <= max_x || px == x,
                    row_start == filled(start, cw as int, x as int, y as int, width as int, (py - y) as int, color),
                    self.pixels@ == filled(row_start, cw as int, x as int, py as int, (px - x) as int, 1, color),
                decreases max_x - px,
            {
                proof {
                    assert((py as int) * (cw as int) + (px as int) < (ch as int) * (cw as int)) by (nonlinear_arith)
                        requires py < ch, px < cw;
                    assert((ch as int) * (cw as int) == (cw as int) * (ch as int)) by (nonlinear_arith);
                }
                let p: u32 = py * cw + px;
                let off: usize = (p * 4) as usize;
                let ghost before = self.pixels@;
                self.pixels.set(off, color.r);
                self.pixels.set(off + 1, color.g);
                self.pixels.set(off + 2, color.b);
                self.pixels.set(off + 3, color.a);
                proof {
                    lemma_pixel_index(cw as int, px as int, py as int);
                    let next = filled(row_start, cw as int, x as int, py as int, (px + 1 - x) as int, 1, color);
                    assert forall|i: int| 0 <= i < self.pixels@.len() implies self.pixels@[i] == next[i] by {
                        lemma_pixel_of_index(cw as int, i);
                        if (i / 4) == p as int {
                            assert(off as int <= i < off as int + 4);
                        } else {
                            assert(!(off as int <= i < off as int + 4));
                            if (i / 4) % (cw as int) == px as int && (i / 4) / (cw as int) == py as int {
                                assert(false);
                            }
                        }
                    }
                    assert(self.pixels@ =~= next);
                }
                px = px + 1;
            }
            proof {
                let next = filled(start, cw as int, x as int, y as int, width as int, (py + 1 - y) as int, color);
                assert forall|i: int| 0 <= i < self.pixels@.len() implies self.pixels@[i] == next[i] by {
                    lemma_pixel_of_index(cw as int, i);
                }
                assert(self.pixels@ =~= next);
            }
            py = py + 1;
        }
        proof {
            let target = filled(start, cw as int, x as int, y as int, width as int, height as int, color);
            assert forall|i: int| 0 <= i < self.pixels@.len() implies self.pixels@[i] == target[i] by {
                lemma_pixel_of_index(cw as int, i);
                lemma_row_of_index(cw as int, ch as int, i);
            }
            assert(self.pixels@ =~= target);
        }
    }
}

/// Byte `k` of pixel (`px`, `py`) sits at `(py * width + px) * 4 + k`.
proof fn lemma_pixel_index(width: int, px: int, py: int)
    requires
        0 <= px < width,
        0 <= py,
    ensures
        forall|k: int|
            0 <= k < 4 ==> #[trigger] (((py * width + px) * 4 + k) / 4) == py * width + px
                && ((py * width + px) * 4 + k) % 4 == k,
        (py * width + px) % width == px,
        (py * width + px) / width == py,
{
    assert forall|k: int| 0 <= k < 4 implies #[trigger] (((py * width + px) * 4 + k) / 4) == py * width + px
        && ((py * width + px) * 4 + k) % 4 == k by {
        lemma_fundamental_div_mod_converse((py * width + px) * 4 + k, 4, py * width + px, k);
    }
    assert((py * width + px) == py * width + px);
    lemma_fundamental_div_mod_converse(py * width + px, width, py, px);
}

/// The pixel that holds byte `i` is `i / 4`, at column `(i / 4) % width`, row `(i / 4) / width`.
proof fn lemma_pixel_of_index(width: int, i: int)
    requires
        0 < width,
        0 <= i,
    ensures
        i / 4 == ((i / 4) / width) * width + (i / 4) % width,
        0 <= (i / 4) % width < width,
        0 <= (i / 4) / width,
        4 * (i / 4) <= i < 4 * (i / 4) + 4,
{
    lemma_fundamental_div_mod(i / 4, width);
    assert(((i / 4) / width) * width == width * ((i / 4) / width)) by (nonlinear_arith);
}

/// A byte inside a `width` x `height` buffer belongs to a row below `height`.
proof fn lemma_row_of_index(width: int, height: int, i: int)
    requires
        0 < width,
        0 <= i < width * height * 4,
    ensures
        (i / 4) / width < height,
{
    lemma_pixel_of_index(width, i);
    let q = (i / 4) / width;
    if q >= height {
        assert(q * width >= height * width) by (nonlinear_arith)
            requires q >= height, width > 0;
        assert(width * height == height * width) by (nonlinear_arith);
    }
}

/// `color` with its alpha replaced by `a`.
pub fn with_alpha(color: Rgba, a: u8) -> (res: Rgba)
    ensures
        res == (Rgba { a, ..color }),
{
    Rgba { a, ..color }
}

/// The fill colour of each metric in the icon, after Task Manager.
pub open spec fn metric_rgba(kind: MetricKind) -> Rgba {
    match kind {
        MetricKind::Cpu => Rgba { r: 0, g: 210, b: 255, a: 255 },
        MetricKind::Memory => Rgba { r: 37, g: 99, b: 235, a: 255 },
        MetricKind::Gpu => Rgba { r: 211, g: 92, b: 255, a: 255 },
        MetricKind::Npu => Rgba { r: 182, g: 92, b: 255, a: 255 },
        MetricKind::Network => Rgba { r: 251, g: 191, b: 36, a: 255 },
    }
}

/// The fill colour of `kind` in the icon.
pub fn metric_color(kind: MetricKind) -> (res: Rgba)
    ensures
        res == metric_rgba(kind),
{
    match kind {
        MetricKind::Cpu => Rgba { r: 0, g: 210, b: 255, a: 255 },
        MetricKind::Memory => Rgba { r: 37, g: 99, b: 235, a: 255 },
        MetricKind::Gpu => Rgba { r: 211, g: 92, b: 255, a: 255 },
        MetricKind::Npu => Rgba { r: 182, g: 92, b: 255, a: 255 },
        MetricKind::Network => Rgba { r: 251, g: 191, b: 36, a: 255 },
    }
}

/// The tooltip label of `kind`; every kind has one, so `fallback` is never used.
pub fn metric_label(kind: MetricKind, fallback: &'static str) -> (res: &'static str)
    ensures
        res@ == kind_label(kind),
{
    let label = match kind {
        MetricKind::Cpu => "CPU",
        MetricKind::Memory => "MEM",
        MetricKind::Gpu => "GPU",
        MetricKind::Npu => "NPU",
        MetricKind::Network => "NET",
    };
    proof {
        reveal_strlit("CPU");
        reveal_strlit("MEM");
        reveal_strlit("GPU");
        reveal_strlit("NPU");
        reveal_strlit("NET");
    }
    if label.is_empty() {
        fallback
    } else {
        label
    }
}

/// The tooltip text of one sample: its label and its display text, its percentage
/// rounded to a whole number, or why it has neither.
pub open spec fn sample_text(sample: MetricSample) -> Seq<char> {
    let label = kind_label(sample.kind);
    match sample.display_value {
        Some(value) => label + " "@ + value@,
        None => match sample.value_percent {
            Some(bits) => label + " "@ + percent_digits(bits) + "%"@,
            None => if sample.status == MetricStatus::Unsupported {
                label + " unsupported"@
            } else {
                label + " unknown"@
            },
        },
    }
}

/// The tooltip text of one sample.
pub fn format_sample(sample: &MetricSample) -> (res: String)
    ensures
        res@ == sample_text(*sample),
{
    let label = metric_label(sample.kind, sample.label);
    let mut s = String::new();
    push_str(&mut s, label);
    match &sample.display_value {
        Some(value) => {
            push_str(&mut s, " ");
            push_str(&mut s, value.as_str());
        },
        None => match sample.value_percent {
            Some(bits) => {
                push_str(&mut s, " ");
                push_percent_digits(&mut s, bits);
                push_str(&mut s, "%");
            },
            None => {
                if sample.status == MetricStatus::Unsupported {
                    push_str(&mut s, " unsupported");
                } else {
                    push_str(&mut s, " unknown");
                }
            },
        },
    }
    s
}

/// Line `c` of the metric lines: the texts of samples `2c` and `2c + 1`, joined by `" | "`.
pub open spec fn chunk_line(texts: Seq<Seq<char>>, c: int) -> Seq<char> {
    if 2 * c + 1 < texts.len() {
        texts[2 * c] + " | "@ + texts[2 * c + 1]
    } else {
        texts[2 * c]
    }
}

/// The first `n` lines of metric texts, pairs of samples per line, joined by newlines.
pub open spec fn metric_lines(texts: Seq<Seq<char>>, n: nat) -> Seq<char>
    decreases n,
{
    if n == 0 {
        seq![]
    } else if n == 1 {
        chunk_line(texts, 0)
    } else {
        metric_lines(texts, (n - 1) as nat) + "\n"@ + chunk_line(texts, n - 1)
    }
}

/// The tooltip: the application's name, then the samples two per line.
pub open spec fn tooltip(app_name: Seq<char>, samples: Seq<MetricSample>) -> Seq<char> {
    if samples.len() == 0 {
        app_name + "\nNo metrics enabled"@
    } else {
        app_name + "\n"@ + metric_lines(
            samples.map_values(|s: MetricSample| sample_text(s)),
            ((samples.len() + 1) / 2) as nat,
        )
    }
}

proof fn lemma_metric_lines_step(texts: Seq<Seq<char>>, c: nat)
    ensures
        c == 0 ==> metric_lines(texts, c + 1) == metric_lines(texts, c) + chunk_line(texts, c as int),
        c > 0 ==> metric_lines(texts, c + 1) == metric_lines(texts, c) + "\n"@ + chunk_line(
            texts,
            c as int,
        ),
{
    if c == 0 {
        assert(metric_lines(texts, 0) + chunk_line(texts, 0) =~= chunk_line(texts, 0));
    }
}

/// The tooltip line of samples `2c` and `2c + 1`.
fn pair_line(samples: &Vec<MetricSample>, c: usize) -> (res: String)
    requires
        c <= samples@.len(),
        samples@.len() - c > c,
    ensures
        res@ == chunk_line(samples@.map_values(|x: MetricSample| sample_text(x)), c as int),
{
    let ghost texts = samples@.map_values(|x: MetricSample| sample_text(x));
    let n = samples.len();
    let i = c + c;
    let mut line = format_sample(&samples[i]);
    if n - i > 1 {
        push_str(&mut line, " | ");
        let second = format_sample(&samples[i + 1]);
        push_str(&mut line, second.as_str());
    }
    line
}

/// The tray tooltip for a snapshot.
pub fn tooltip_text(snapshot: &MetricSnapshot, config: &AppConfig) -> (res: String)
    ensures
        res@ == tooltip(config.app_name@, snapshot.samples@),
{
    let samples = &snapshot.samples;
    let mut s = String::new();
    push_str(&mut s, config.app_name.as_str());
    if samples.len() == 0 {
        push_str(&mut s, "\nNo metrics enabled");
        return s;
    }
    push_str(&mut s, "\n");
    let ghost texts = samples@.map_values(|x: MetricSample| sample_text(x));
    let ghost head = s@;
    let mut c: usize = 0;
    while samples.len() - c > c
        invariant
            c <= samples@.len(),
            samples@.len() > 0,
            texts == samples@.map_values(|x: MetricSample| sample_text(x)),
            2 * c <= samples@.len() + 1,
            s@ == head + metric_lines(texts, c as nat),
        decreases samples@.len() + 1 - 2 * c,
    {
        let line = pair_line(samples, c);
        let ghost before = s@;
        if c > 0 {
            push_str(&mut s, "\n");
        }
        push_str(&mut s, line.as_str());
        proof {
            lemma_metric_lines_step(texts, c as nat);
            if c > 0 {
                assert(s@ =~= before + "\n"@ + chunk_line(texts, c as int));
            } else {
                assert(s@ =~= before + chunk_line(texts, c as int));
            }
        }
        c = c + 1;
    }
    assert(c == (samples@.len() + 1) / 2);
    s
}

/// Why a colour setting is not a `#RRGGBB` colour.
#[derive(Clone, Copy, Debug, PartialEq, Eq, Structural)]
pub enum HexColorError {
    /// Without white space and leading `#`, it is not six bytes long.
    Length,
    /// A channel is not two hexadecimal digits (one may be preceded by `+` instead).
    Digit,
}

/// The value of a hexadecimal digit, either case.
pub open spec fn hex_digit(c: char) -> Option<u8> {
    if '0' <= c <= '9' {
        Some((c as u32 - '0' as u32) as u8)
    } else if 'a' <= c <= 'f' {
        Some((c as u32 - 'a' as u32 + 10) as u8)
    } else if 'A' <= c <= 'F' {
        Some((c as u32 - 'A' as u32 + 10) as u8)
    } else {
        None
    }
}

/// `u8::from_str_radix` in base 16 of the two-character string `a b`: two digits,
/// or a `+` and one digit.
pub open spec fn hex_byte(a: char, b: char) -> Option<u8> {
    if a == '+' {
        hex_digit(b)
    } else {
        match (hex_digit(a), hex_digit(b)) {
            (Some(x), Some(y)) => Some((16 * x + y) as u8),
            _ => None,
        }
    }
}

/// What remains of a colour setting once white space and leading `#` are gone.
pub open spec fn hex_color_body(s: Seq<char>) -> Seq<char> {
    strip_leading(trim(s), '#')
}

/// Whether byte offset `b` falls between two characters of `v` in UTF-8.
pub open spec fn is_byte_boundary(v: Seq<char>, b: nat) -> bool {
    exists|k: int| 0 <= k <= v.len() && #[trigger] utf8_len(v.take(k)) == b
}

/// Whether cutting the body of a six-byte colour setting into byte pairs would split a
/// character, which makes the string slicing of `parse_hex_color` panic.
pub open spec fn hex_color_splits_char(s: Seq<char>) -> bool {
    let v = hex_color_body(s);
    utf8_len(v) == 6 && !(is_byte_boundary(v, 2) && is_byte_boundary(v, 4))
}

/// The colour a `#RRGGBB` setting denotes. Six bytes that are not six characters hold
/// a character outside ASCII, which is no digit.
pub open spec fn hex_color(s: Seq<char>) -> Result<Rgba, HexColorError> {
    let v = hex_color_body(s);
    if utf8_len(v) != 6 {
        Err(HexColorError::Length)
    } else if v.len() != 6 {
        Err(HexColorError::Digit)
    } else {
        match (hex_byte(v[0], v[1]), hex_byte(v[2], v[3]), hex_byte(v[4], v[5])) {
            (Some(r), Some(g), Some(b)) => Ok(Rgba { r, g, b, a: 255 }),
            _ => Err(HexColorError::Digit),
        }
    }
}

fn hex_digit_value(c: char) -> (res: Option<u8>)
    ensures
        res == hex_digit(c),
{
    if '0' <= c && c <= '9' {
        Some((c as u32 - '0' as u32) as u8)
    } else if 'a' <= c && c <= 'f' {
        Some((c as u32 - 'a' as u32 + 10) as u8)
    } else if 'A' <= c && c <= 'F' {
        Some((c as u32 - 'A' as u32 + 10) as u8)
    } else {
        None
    }
}

fn hex_byte_value(a: char, b: char) -> (res: Option<u8>)
    ensures
        res == hex_byte(a, b),
{
    if a == '+' {
        hex_digit_value(b)
    } else {
        match (hex_digit_value(a), hex_digit_value(b)) {
            (Some(x), Some(y)) => Some(16 * x + y),
            _ => None,
        }
    }
}

/// The body of a colour setting, its UTF-8 length, and whether byte offsets 2 and 4
/// fall between characters.
fn hex_color_scan(input: &str) -> (res: (Vec<char>, usize, bool))
    ensures
        res.0@ == hex_color_body(input@),
        (res.1 == 6) == (utf8_len(res.0@) == 6),
        res.1 == 6 ==> (res.2 <==> is_byte_boundary(res.0@, 2) && is_byte_boundary(res.0@, 4)),
{
    let cs = chars_of(input);
    let trimmed = trim_chars(&cs);
    let v = strip_leading_chars(&trimmed, '#');
    let mut len: usize = 0;
    let mut at2 = false;
    let mut at4 = false;
    let mut k: usize = 0;
    assert(v@.take(0) =~= Seq::<char>::empty());
    while k < v.len()
        invariant
            k <= v@.len(),
            len <= 6 ==> len == utf8_len(v@.take(k as int)),
            len > 6 ==> utf8_len(v@.take(k as int)) > 6,
            at2 <==> exists|j: int| 0 <= j <= k && #[trigger] utf8_len(v@.take(j)) == 2,
            at4 <==> exists|j: int| 0 <= j <= k && #[trigger] utf8_len(v@.take(j)) == 4,
            forall|j: int| 0 <= j <= k ==> #[trigger] utf8_len(v@.take(j)) <= utf8_len(v@.take(k as int)),
        decreases v@.len() - k,
    {
        let w = char_utf8_width(v[k]) as usize;
        assert(v@.take(k + 1).drop_last() =~= v@.take(k as int));
        assert(v@.take(k + 1).last() == v@[k as int]);
        if len <= 6 {
            len = len + w;
        }
        k = k + 1;
        if len == 2 {
            at2 = true;
        }
        if len == 4 {
            at4 = true;
        }
        proof {
            assert forall|j: int| 0 <= j <= k implies #[trigger] utf8_len(v@.take(j)) <= utf8_len(
                v@.take(k as int),
            ) by {
                if j < k {
                    assert(utf8_len(v@.take(j)) <= utf8_len(v@.take(k - 1)));
                }
            }
            if at2 {
                if len == 2 {
                    assert(utf8_len(v@.take(k as int)) == 2);
                }
            } else {
                assert forall|j: int| 0 <= j <= k implies #[trigger] utf8_len(v@.take(j)) != 2 by {
                    if j == k {
                    }
                }
            }
            if at4 {
                if len == 4 {
                    assert(utf8_len(v@.take(k as int)) == 4);
                }
            } else {
                assert forall|j: int| 0 <= j <= k implies #[trigger] utf8_len(v@.take(j)) != 4 by {
                    if j == k {
                    }
                }
            }
        }
    }
    assert(v@.take(v@.len() as int) =~= v@);
    (v, len, at2 && at4)
}

/// Whether `parse_hex_color` can cut `input` into byte pairs without splitting a character.
pub fn hex_color_is_sliceable(input: &str) -> (res: bool)
    ensures
        res == !hex_color_splits_char(input@),
{
    let (_v, len, bounds) = hex_color_scan(input);
    len != 6 || bounds
}

/// Parses a `#RRGGBB` colour setting into an opaque colour.
pub fn parse_hex_color(input: &str) -> (res: Result<Rgba, HexColorError>)
    requires
        !hex_color_splits_char(input@),
    ensures
        res == hex_color(input@),
{
    let (v, len, _bounds) = hex_color_scan(input);
    if len != 6 {
        return Err(HexColorError::Length);
    }
    if v.len() != 6 {
        return Err(HexColorError::Digit);
    }
    let r = hex_byte_value(v[0], v[1]);
    let g = hex_byte_value(v[2], v[3]);
    let b = hex_byte_value(v[4], v[5]);
    match (r, g, b) {
        (Some(r), Some(g), Some(b)) => Ok(Rgba { r, g, b, a: 255 }),
        _ => Err(HexColorError::Digit),
    }
}

/// `a - b`, or `0` where that would be negative (`u32::saturating_sub`).
pub open spec fn sat_sub(a: int, b: int) -> int {
    if a >= b {
        a - b
    } else {
        0
    }
}

/// Painting the same rectangle twice leaves the same pixels as painting it once.
pub proof fn lemma_fill_idempotent(
    pixels: Seq<u8>,
    width: int,
    x: int,
    y: int,
    w: int,
    h: int,
    color: Rgba,
)
    ensures
        filled(filled(pixels, width, x, y, w, h, color), width, x, y, w, h, color) == filled(
            pixels,
            width,
            x,
            y,
            w,
            h,
            color,
        ),
{
    assert(filled(filled(pixels, width, x, y, w, h, color), width, x, y, w, h, color) =~= filled(
        pixels,
        width,
        x,
        y,
        w,
        h,
        color,
    ));
}

/// A rectangle in pixels.
#[derive(Clone, Copy, Debug, PartialEq, Eq, Structural)]
pub struct Rect {
    pub x: u32,
    pub y: u32,
    pub width: u32,
    pub height: u32,
}

/// The "nothing to show" picture: three horizontal bars of `size / 8` rows, a quarter of
/// the width in from each side, at the top quarter, the middle and the bottom quarter.
pub open spec fn empty_state(pixels: Seq<u8>, size: int, color: Rgba) -> Seq<u8> {
    let margin = size / 4;
    let bar = size / 8;
    let first = filled(pixels, size, margin, margin, size - margin * 2, bar, color);
    let second = filled(first, size, margin, size / 2, size - margin * 2, bar, color);
    filled(second, size, margin, size - margin - bar, size - margin * 2, bar, color)
}

/// Draws the "nothing to show" picture across the canvas.
pub fn draw_empty_state(canvas: &mut Canvas, color: Rgba)
    requires
        old(canvas).wf(),
    ensures
        final(canvas).wf(),
        final(canvas).width == old(canvas).width,
        final(canvas).height == old(canvas).height,
        final(canvas).pixels@ == empty_state(old(canvas).pixels@, old(canvas).width as int, color),
{
    let size = canvas.width;
    let margin = size / 4;
    canvas.fill_rect(margin, margin, size - margin * 2, size / 8, color);
    canvas.fill_rect(margin, size / 2, size - margin * 2, size / 8, color);
    canvas.fill_rect(margin, size - margin - size / 8, size - margin * 2, size / 8, color);
}

/// A one-pixel frame around the rectangle: top row, bottom row, left column, right column.
pub open spec fn border(pixels: Seq<u8>, width: int, x: int, y: int, w: int, h: int, color: Rgba) -> Seq<u8> {
    let top = filled(pixels, width, x, y, w, 1, color);
    let bottom = filled(top, width, x, y + sat_sub(h, 1), w, 1, color);
    let left = filled(bottom, width, x, y, 1, h, color);
    filled(left, width, x + sat_sub(w, 1), y, 1, h, color)
}

/// Draws a one-pixel frame around the rectangle.
pub fn draw_cell_border(canvas: &mut Canvas, x: u32, y: u32, width: u32, height: u32, color: Rgba)
    requires
        old(canvas).wf(),
        x + width <= u32::MAX,
        x < u32::MAX,
        y + height <= u32::MAX,
        y < u32::MAX,
    ensures
        final(canvas).wf(),
        final(canvas).width == old(canvas).width,
        final(canvas).height == old(canvas).height,
        final(canvas).pixels@ == border(
            old(canvas).pixels@,
            old(canvas).width as int,
            x as int,
            y as int,
            width as int,
            height as int,
            color,
        ),
{
    canvas.fill_rect(x, y, width, 1, color);
    canvas.fill_rect(x, y + height.saturating_sub(1), width, 1, color);
    canvas.fill_rect(x, y, 1, height, color);
    canvas.fill_rect(x + width.saturating_sub(1), y, 1, height, color);
}

/// How much of a metric cell is filled, and how opaque the fill is. Both come from the
/// metric's percentage in floating point.
#[derive(Clone, Copy, Debug, PartialEq, Eq, Structural)]
pub struct CellFill {
    pub height: u32,
    pub alpha: u8,
}

/// One metric cell: a translucent track, a frame, and a fill rising from the bottom,
/// one pixel in from the sides, when there is any fill.
pub open spec fn metric_cell(
    pixels: Seq<u8>,
    width: int,
    x: int,
    y: int,
    w: int,
    h: int,
    fill: CellFill,
    color: Rgba,
    track: Rgba,
) -> Seq<u8> {
    let background = filled(pixels, width, x, y, w, h, Rgba { a: 110, ..track });
    let framed = border(background, width, x, y, w, h, Rgba { a: 220, ..track });
    if fill.height > 0 {
        filled(
            framed,
            width,
            x + 1,
            y + sat_sub(sat_sub(h, 1), fill.height as int),
            sat_sub(w, 2),
            fill.height as int,
            Rgba { a: fill.alpha, ..color },
        )
    } else {
        framed
    }
}

/// Draws one metric cell in `rect`.
pub fn draw_metric_cell(canvas: &mut Canvas, rect: Rect, fill: CellFill, color: Rgba, track_color: Rgba)
    requires
        old(canvas).wf(),
        rect.x + rect.width <= u32::MAX,
        rect.x < u32::MAX,
        rect.y + rect.height <= u32::MAX,
        rect.y + fill.height <= u32::MAX,
        rect.y < u32::MAX,
    ensures
        final(canvas).wf(),
        final(canvas).width == old(canvas).width,
        final(canvas).height == old(canvas).height,
        final(canvas).pixels@ == metric_cell(
            old(canvas).pixels@,
            old(canvas).width as int,
            rect.x as int,
            rect.y as int,
            rect.width as int,
            rect.height as int,
            fill,
            color,
            track_color,
        ),
{
    let Rect { x, y, width, height } = rect;
    canvas.fill_rect(x, y, width, height, with_alpha(track_color, 110));
    draw_cell_border(canvas, x, y, width, height, with_alpha(track_color, 220));
    if fill.height > 0 {
        let fill_y = y + height.saturating_sub(1).saturating_sub(fill.height);
        canvas.fill_rect(
            x + 1,
            fill_y,
            width.saturating_sub(2),
            fill.height,
            with_alpha(color, fill.alpha),
        );
    }
}

/// Where the metric cells go in an icon: the outer margin, the size of each cell and the
/// gap between neighbouring cells.
#[derive(Clone, Copy, Debug, PartialEq, Eq, Structural)]
pub struct CellLayout {
    pub margin: u32,
    pub cell_width: u32,
    pub cell_height: u32,
    pub gap: u32,
}

/// The gap between two cells, in pixels, where the cells fit with it.
pub const CELL_GAP: u32 = 2;

/// The narrower gap used where the cells would otherwise run off the icon.
pub const NARROW_CELL_GAP: u32 = 1;

/// The layout of `count` cells with gaps of `gap` in a `size`-pixel icon: a margin of a
/// tenth of the size (at least 2), the rest shared evenly (at least 3 pixels per cell),
/// full height inside the margins.
pub open spec fn layout_with_gap(size: int, count: int, gap: int) -> CellLayout {
    let margin = if size / 10 > 2 { size / 10 } else { 2 };
    let available = sat_sub(sat_sub(size, margin * 2), gap * sat_sub(count, 1));
    let share = available / (if count > 1 { count } else { 1 });
    CellLayout {
        margin: margin as u32,
        cell_width: (if share > 3 { share } else { 3 }) as u32,
        cell_height: sat_sub(size, margin * 2) as u32,
        gap: gap as u32,
    }
}

/// The left edge of cell `i`.
pub open spec fn cell_x(layout: CellLayout, i: int) -> int {
    layout.margin + i * (layout.cell_width + layout.gap)
}

/// The layout of `count` cells side by side in a `size`-pixel icon: gaps of 2, unless
/// then the last cell would start outside the icon, in which case gaps of 1.
pub open spec fn layout_of(size: int, count: int) -> CellLayout {
    let wide = layout_with_gap(size, count, CELL_GAP as int);
    if count <= 1 || cell_x(wide, count - 1) < size {
        wide
    } else {
        layout_with_gap(size, count, NARROW_CELL_GAP as int)
    }
}

fn layout_with(size: u32, count: u32, gap: u32) -> (res: CellLayout)
    requires
        count < 0x8000_0000,
        gap <= 2,
    ensures
        res == layout_with_gap(size as int, count as int, gap as int),
        res.margin <= 2 + size / 10,
        res.cell_width <= 3 + size,
        res.cell_height <= size,
{
    let margin = if size / 10 > 2 { size / 10 } else { 2 };
    let others = count.saturating_sub(1);
    assert(gap * others <= 2 * 0x8000_0000) by (nonlinear_arith)
        requires gap <= 2, others < 0x8000_0000;
    let available = size.saturating_sub(margin * 2).saturating_sub(gap * others);
    let divisor = if count > 1 { count } else { 1 };
    let share = available / divisor;
    assert(share <= available) by (nonlinear_arith)
        requires share == available / divisor, divisor >= 1, available >= 0;
    let cell_width = if share > 3 { share } else { 3 };
    CellLayout { margin, cell_width, cell_height: size.saturating_sub(margin * 2), gap }
}

/// The layout of `count` cells side by side in a `size`-pixel icon.
pub fn cell_layout(size: u32, count: u32) -> (res: CellLayout)
    requires
        count < 0x8000_0000,
    ensures
        res == layout_of(size as int, count as int),
        res.margin <= 2 + size / 10,
        res.cell_width <= 3 + size,
        res.cell_height <= size,
        res.gap <= CELL_GAP,
{
    let wide = layout_with(size, count, CELL_GAP);
    if count <= 1 {
        return wide;
    }
    assert((count - 1) as int * (wide.cell_width as int + 2) <= 0x8000_0000 * 0x1_0000_0003) by (nonlinear_arith)
        requires count < 0x8000_0000, count >= 1, wide.cell_width <= 0x1_0000_0001;
    let last_x: u64 = wide.margin as u64 + (count - 1) as u64 * (wide.cell_width as u64 + CELL_GAP as u64);
    assert(last_x == cell_x(wide, count - 1)) by (nonlinear_arith)
        requires
            last_x == wide.margin as int + (count - 1) as int * (wide.cell_width as int + 2),
            wide.gap == 2;
    if last_x < size as u64 {
        wide
    } else {
        layout_with(size, count, NARROW_CELL_GAP)
    }
}

/// Every cell of an icon of 16 to 64 pixels with one to four cells starts inside the
/// icon, so CPU, memory, GPU and NPU all show side by side.
pub proof fn lemma_cells_start_inside(size: int, count: int)
    requires
        16 <= size <= 64,
        1 <= count <= 4,
    ensures
        forall|i: int| 0 <= i < count ==> #[trigger] cell_x(layout_of(size, count), i) < size,
{
    let layout = layout_of(size, count);
    let last = cell_x(layout, count - 1);
    let narrow = layout_with_gap(size, count, 1);
    let m = narrow.margin as int;
    let available = sat_sub(sat_sub(size, m * 2), sat_sub(count, 1));
    let share = available / count;
    lemma_fundamental_div_mod(available, count);
    assert(share * count <= available) by (nonlinear_arith)
        requires available == count * share + available % count, available % count >= 0;
    assert(share >= 0) by (nonlinear_arith)
        requires available >= 0, count >= 1, share == available / count;
    assert(m <= size / 10 + 2);
    assert(size >= 16);
    if count > 1 {
        assert(narrow.cell_width == (if share > 3 { share } else { 3 }));
        assert(cell_x(narrow, count - 1) < size) by {
            if count == 2 {
                assert(cell_x(narrow, 1) == m + narrow.cell_width + 1);
            } else if count == 3 {
                assert(cell_x(narrow, 2) == m + 2 * (narrow.cell_width + 1));
            } else {
                assert(cell_x(narrow, 3) == m + 3 * (narrow.cell_width + 1));
            }
        }
    }
    let wide = layout_with_gap(size, count, 2);
    assert(cell_x(wide, 0) == wide.margin);
    if count <= 1 {
        assert(layout == wide);
        assert(last == wide.margin);
    } else if cell_x(wide, count - 1) < size {
        assert(layout == wide);
    } else {
        assert(layout == narrow);
    }
    assert(last < size);
    assert forall|i: int| 0 <= i < count implies #[trigger] cell_x(layout, i) < size by {
        assert(i * (layout.cell_width + layout.gap) <= (count - 1) * (layout.cell_width + layout.gap))
            by (nonlinear_arith)
            requires i <= count - 1, layout.cell_width + layout.gap >= 0;
    }
}

/// In an icon of 16 to 64 pixels the cells stand side by side left to right, at least
/// 3 pixels wide, at least one pixel apart and never overlapping, starting inside the
/// left margin of at least 2 pixels; they are as tall as the icon minus both margins.
pub proof fn lemma_cells_side_by_side(size: int, count: int)
    requires
        16 <= size <= 64,
        1 <= count <= 4,
    ensures
        ({
            let layout = layout_of(size, count);
            &&& layout.cell_width >= 3
            &&& layout.gap >= 1
            &&& layout.margin >= 2
            &&& cell_x(layout, 0) == layout.margin
            &&& layout.cell_height == size - 2 * layout.margin
            &&& layout.cell_height > 0
            &&& forall|i: int|
                0 <= i < count - 1 ==> cell_x(layout, i) + layout.cell_width + layout.gap == #[trigger] cell_x(
                    layout,
                    i + 1,
                )
        }),
{
    let layout = layout_of(size, count);
    assert(cell_x(layout, 0) == layout.margin);
    assert forall|i: int| 0 <= i < count - 1 implies cell_x(layout, i) + layout.cell_width + layout.gap
        == #[trigger] cell_x(layout, i + 1) by {
        assert((i + 1) * (layout.cell_width + layout.gap) == i * (layout.cell_width + layout.gap) + (
        layout.cell_width + layout.gap)) by (nonlinear_arith);
    }
}

/// Whether `count` cells fit side by side in a `size`-pixel icon without any coordinate
/// leaving `u32`.
pub open spec fn cells_fit(size: int, count: int) -> bool {
    let layout = layout_of(size, count);
    &&& count < 0x8000_0000
    &&& size + 2 < u32::MAX
    &&& layout.margin + count * (layout.cell_width + layout.gap) + 1 < u32::MAX
}

/// The canvas after drawing the first `k` cells, left to right.
pub open spec fn cells_drawn(
    pixels: Seq<u8>,
    width: int,
    layout: CellLayout,
    cells: Seq<PlannedCell>,
    fills: Seq<CellFill>,
    track: Rgba,
    k: nat,
) -> Seq<u8>
    decreases k,
{
    if k == 0 {
        pixels
    } else {
        let i = k - 1;
        metric_cell(
            cells_drawn(pixels, width, layout, cells, fills, track, i as nat),
            width,
            cell_x(layout, i),
            layout.margin as int,
            layout.cell_width as int,
            layout.cell_height as int,
            fills[i],
            metric_rgba(cells[i].kind),
            track,
        )
    }
}

/// Draws the metric cells side by side across the canvas, the `i`-th with `fills[i]`.
pub fn draw_horizontal_metric_cells(
    canvas: &mut Canvas,
    cells: &Vec<PlannedCell>,
    fills: &Vec<CellFill>,
    track_color: Rgba,
)
    requires
        old(canvas).wf(),
        fills@.len() == cells@.len(),
        cells_fit(old(canvas).width as int, cells@.len() as int),
        forall|i: int|
            0 <= i < fills@.len() ==> layout_of(old(canvas).width as int, cells@.len() as int).margin
                + (#[trigger] fills@[i]).height <= u32::MAX,
    ensures
        final(canvas).wf(),
        final(canvas).width == old(canvas).width,
        final(canvas).height == old(canvas).height,
        final(canvas).pixels@ == cells_drawn(
            old(canvas).pixels@,
            old(canvas).width as int,
            layout_of(old(canvas).width as int, cells@.len() as int),
            cells@,
            fills@,
            track_color,
            cells@.len(),
        ),
{
    let ghost start = canvas.pixels@;
    let size = canvas.width;
    let ghost height = canvas.height;
    let count = cells.len() as u32;
    let layout = cell_layout(size, count);
    let mut i: usize = 0;
    while i < cells.len()
        invariant
            canvas.wf(),
            canvas.width == size,
            canvas.height == height,
            i <= cells@.len(),
            count == cells@.len(),
            fills@.len() == cells@.len(),
            layout == layout_of(size as int, count as int),
            cells_fit(size as int, count as int),
            forall|j: int| 0 <= j < fills@.len() ==> layout.margin + (#[trigger] fills@[j]).height <= u32::MAX,
            canvas.pixels@ == cells_drawn(start, size as int, layout, cells@, fills@, track_color, i as nat),
        decreases cells@.len() - i,
    {
        let step = layout.cell_width + layout.gap;
        assert((i as int) * (step as int) <= (count as int) * (step as int)) by (nonlinear_arith)
            requires i < count, step >= 0;
        let x = layout.margin + (i as u32) * step;
        let rect = Rect { x, y: layout.margin, width: layout.cell_width, height: layout.cell_height };
        assert(x + layout.cell_width <= layout.margin + (count as int) * (step as int)) by (nonlinear_arith)
            requires
                x == layout.margin + (i as int) * (step as int),
                i + 1 <= count,
                step >= layout.cell_width,
        ;
        draw_metric_cell(canvas, rect, fills[i], metric_color(cells[i].kind), track_color);
        i = i + 1;
    }
}

/// A metric drawn in the icon, with its percentage clamped to `0.0..=100.0` as an `f32`
/// bit pattern.
#[derive(Clone, Copy, Debug, PartialEq, Eq, Structural)]
pub struct PlannedCell {
    pub kind: MetricKind,
    pub value_percent: u32,
}

/// Whether a sample can appear in the icon: CPU, memory, GPU or NPU with a percentage.
/// Network stays in the tooltip only.
pub open spec fn icon_visible(sample: MetricSample) -> bool {
    &&& sample.kind != MetricKind::Network
    &&& sample.value_percent is Some
}

/// The percentage of the first sample of `kind` that can appear in the icon.
pub open spec fn first_visible(samples: Seq<MetricSample>, kind: MetricKind) -> Option<u32>
    decreases samples.len(),
{
    if samples.len() == 0 {
        None
    } else if samples[0].kind == kind && icon_visible(samples[0]) {
        samples[0].value_percent
    } else {
        first_visible(samples.drop_first(), kind)
    }
}

/// The icon's cell for `kind`, if any sample of it can appear.
pub open spec fn grid_cell(samples: Seq<MetricSample>, kind: MetricKind) -> Seq<PlannedCell> {
    match first_visible(samples, kind) {
        Some(v) => seq![PlannedCell { kind, value_percent: clamped_percent(v) }],
        None => seq![],
    }
}

/// The icon's cells: CPU, memory, GPU and NPU in that order, each from its first
/// visible sample, skipping those without one.
pub open spec fn grid_cells(samples: Seq<MetricSample>) -> Seq<PlannedCell> {
    grid_cell(samples, MetricKind::Cpu) + grid_cell(samples, MetricKind::Memory) + grid_cell(
        samples,
        MetricKind::Gpu,
    ) + grid_cell(samples, MetricKind::Npu)
}

fn find_visible(samples: &Vec<MetricSample>, kind: MetricKind) -> (res: Option<u32>)
    ensures
        res == first_visible(samples@, kind),
{
    let mut i: usize = 0;
    assert(samples@.skip(0) =~= samples@);
    while i < samples.len()
        invariant
            i <= samples@.len(),
            first_visible(samples@, kind) == first_visible(samples@.skip(i as int), kind),
        decreases samples@.len() - i,
    {
        assert(samples@.skip(i as int)[0] == samples@[i as int]);
        assert(samples@.skip(i as int).drop_first() =~= samples@.skip(i + 1));
        let sample = &samples[i];
        if sample.kind == kind && sample.kind != MetricKind::Network && sample.value_percent.is_some() {
            return sample.value_percent;
        }
        i = i + 1;
    }
    assert(samples@.skip(i as int).len() == 0);
    None
}

fn push_grid_cell(cells: &mut Vec<PlannedCell>, samples: &Vec<MetricSample>, kind: MetricKind)
    ensures
        final(cells)@ == old(cells)@ + grid_cell(samples@, kind),
{
    match find_visible(samples, kind) {
        Some(v) => {
            cells.push(PlannedCell { kind, value_percent: clamp_percent(v) });
        },
        None => {},
    }
    assert(cells@ =~= old(cells)@ + grid_cell(samples@, kind));
}

/// The icon's cells for a snapshot.
pub fn draw_metric_grid(samples: &Vec<MetricSample>) -> (res: Vec<PlannedCell>)
    ensures
        res@ == grid_cells(samples@),
        res@.len() <= 4,
{
    let mut cells: Vec<PlannedCell> = Vec::new();
    push_grid_cell(&mut cells, samples, MetricKind::Cpu);
    push_grid_cell(&mut cells, samples, MetricKind::Memory);
    push_grid_cell(&mut cells, samples, MetricKind::Gpu);
    push_grid_cell(&mut cells, samples, MetricKind::Npu);
    assert(cells@ =~= grid_cells(samples@));
    cells
}

/// The edge of the icon: the configured size clamped to `16..=64`.
pub open spec fn icon_size(configured: u32) -> u32 {
    if configured < 16 {
        16
    } else if configured > 64 {
        64
    } else {
        configured
    }
}

/// What the icon shows, before the fills of its cells are worked out.
#[derive(Clone, Debug)]
pub struct IconPlan {
    pub size: u32,
    pub track_color: Rgba,
    pub cells: Vec<PlannedCell>,
}

/// The icon's size, track colour and cells for a snapshot, or why the track colour
/// setting is not a colour.
pub fn icon_plan(snapshot: &MetricSnapshot, config: &AppConfig) -> (res: Result<IconPlan, HexColorError>)
    requires
        !hex_color_splits_char(config.icon.track_color@),
    ensures
        match res {
            Ok(plan) => {
                &&& hex_color(config.icon.track_color@) == Ok::<Rgba, HexColorError>(plan.track_color)
                &&& plan.size == icon_size(config.icon.size)
                &&& plan.cells@ == grid_cells(snapshot.samples@)
            },
            Err(e) => hex_color(config.icon.track_color@) == Err::<Rgba, HexColorError>(e),
        },
{
    let configured = config.icon.size;
    let size = if configured < 16 {
        16
    } else if configured > 64 {
        64
    } else {
        configured
    };
    let track_color = match parse_hex_color(config.icon.track_color.as_str()) {
        Ok(color) => color,
        Err(e) => {
            return Err(e);
        },
    };
    let cells = draw_metric_grid(&snapshot.samples);
    Ok(IconPlan { size, track_color, cells })
}

/// The icon's pixels: the "nothing to show" picture when it has no cells, else its
/// cells side by side, the `i`-th filled as `fills[i]` says.
pub open spec fn icon_pixels(size: int, track: Rgba, cells: Seq<PlannedCell>, fills: Seq<CellFill>) -> Seq<u8> {
    let blank = Seq::new((size * size * 4) as nat, |i: int| 0u8);
    if cells.len() == 0 {
        empty_state(blank, size, track)
    } else {
        cells_drawn(blank, size, layout_of(size, cells.len() as int), cells, fills, track, cells.len())
    }
}

/// Renders the icon of a plan into `size * size` RGBA pixels.
pub fn paint_icon(plan: &IconPlan, fills: &Vec<CellFill>) -> (res: Vec<u8>)
    requires
        16 <= plan.size <= 64,
        plan.cells@.len() <= 4,
        fills@.len() == plan.cells@.len(),
        forall|i: int| 0 <= i < fills@.len() ==> (#[trigger] fills@[i]).height <= u32::MAX - 64,
    ensures
        res@ == icon_pixels(plan.size as int, plan.track_color, plan.cells@, fills@),
        res@.len() == plan.size * plan.size * 4,
{
    let size = plan.size;
    assert(size * size * 4 <= 64 * 64 * 4) by (nonlinear_arith)
        requires size <= 64;
    let mut canvas = Canvas::new(size, size);
    if plan.cells.len() == 0 {
        draw_empty_state(&mut canvas, plan.track_color);
    } else {
        let layout = cell_layout(size, plan.cells.len() as u32);
        assert((plan.cells@.len() as int) * (layout.cell_width as int + layout.gap as int) <= 4 * 69) by (nonlinear_arith)
            requires plan.cells@.len() <= 4, layout.cell_width <= 67, layout.gap <= 2;
        draw_horizontal_metric_cells(&mut canvas, &plan.cells, fills, plan.track_color);
    }
    canvas.pixels
}

/// The icon never shows network activity, which stays in the tooltip, and shows CPU,
/// memory, GPU and NPU left to right, each at most once.
pub proof fn lemma_icon_cells(samples: Seq<MetricSample>)
    ensures
        forall|i: int| 0 <= i < grid_cells(samples).len() ==> (#[trigger] grid_cells(samples)[i]).kind
            != MetricKind::Network,
        in_menu_order(grid_cells(samples).map_values(|c: PlannedCell| c.kind)),
{
    let a = grid_cell(samples, MetricKind::Cpu);
    let b = grid_cell(samples, MetricKind::Memory);
    let c = grid_cell(samples, MetricKind::Gpu);
    let d = grid_cell(samples, MetricKind::Npu);
    let cells = grid_cells(samples);
    assert(cells == a + b + c + d);
    let n1 = a.len() as int;
    let n2 = n1 + b.len();
    let n3 = n2 + c.len();
    assert(forall|t: int| 0 <= t < n1 ==> (#[trigger] cells[t]).kind == MetricKind::Cpu);
    assert(forall|t: int| n1 <= t < n2 ==> (#[trigger] cells[t]).kind == MetricKind::Memory);
    assert(forall|t: int| n2 <= t < n3 ==> (#[trigger] cells[t]).kind == MetricKind::Gpu);
    assert(forall|t: int| n3 <= t < cells.len() ==> (#[trigger] cells[t]).kind == MetricKind::Npu);
    let kinds = cells.map_values(|c: PlannedCell| c.kind);
    assert forall|i: int, j: int| 0 <= i < j < kinds.len() implies menu_rank(kinds[i]) < menu_rank(
        kinds[j],
    ) by {
        assert(kinds[i] == cells[i].kind);
        assert(kinds[j] == cells[j].kind);
    }
}

/// Whether no two samples are of the same kind.
pub open spec fn distinct_kinds(samples: Seq<MetricSample>) -> bool {
    forall|i: int, j: int| 0 <= i < j < samples.len() ==> samples[i].kind != samples[j].kind
}

/// The samples that can appear in the icon, in order.
pub open spec fn icon_samples(samples: Seq<MetricSample>) -> Seq<MetricSample>
    decreases samples.len(),
{
    if samples.len() == 0 {
        seq![]
    } else {
        (if icon_visible(samples[0]) {
            seq![samples[0]]
        } else {
            seq![]
        }) + icon_samples(samples.drop_first())
    }
}

proof fn lemma_first_visible_absent(samples: Seq<MetricSample>, kind: MetricKind)
    requires
        forall|i: int| 0 <= i < samples.len() ==> (#[trigger] samples[i]).kind != kind,
    ensures
        first_visible(samples, kind) is None,
    decreases samples.len(),
{
    if samples.len() > 0 {
        assert(samples[0].kind != kind);
        assert forall|i: int| 0 <= i < samples.drop_first().len() implies (
        #[trigger] samples.drop_first()[i]).kind != kind by {
            assert(samples.drop_first()[i] == samples[i + 1]);
        }
        lemma_first_visible_absent(samples.drop_first(), kind);
    }
}

proof fn lemma_first_visible_member(samples: Seq<MetricSample>, j: int)
    requires
        distinct_kinds(samples),
        0 <= j < samples.len(),
    ensures
        first_visible(samples, samples[j].kind) == (if icon_visible(samples[j]) {
            samples[j].value_percent
        } else {
            None
        }),
    decreases samples.len(),
{
    let kind = samples[j].kind;
    let rest = samples.drop_first();
    if j == 0 {
        if !icon_visible(samples[0]) {
            assert forall|i: int| 0 <= i < rest.len() implies (#[trigger] rest[i]).kind != kind by {
                assert(rest[i] == samples[i + 1]);
            }
            lemma_first_visible_absent(rest, kind);
        }
    } else {
        assert(samples[0].kind != kind);
        assert(rest[j - 1] == samples[j]);
        assert forall|a: int, b: int| 0 <= a < b < rest.len() implies rest[a].kind != rest[b].kind by {
            assert(rest[a] == samples[a + 1]);
            assert(rest[b] == samples[b + 1]);
        }
        lemma_first_visible_member(rest, j - 1);
    }
}

proof fn lemma_first_visible_same(s1: Seq<MetricSample>, s2: Seq<MetricSample>, kind: MetricKind)
    requires
        distinct_kinds(s1),
        distinct_kinds(s2),
        forall|x: MetricSample| s1.contains(x) <==> s2.contains(x),
    ensures
        first_visible(s1, kind) == first_visible(s2, kind),
{
    if exists|i: int| 0 <= i < s1.len() && (#[trigger] s1[i]).kind == kind {
        let i = choose|i: int| 0 <= i < s1.len() && (#[trigger] s1[i]).kind == kind;
        assert(s1.contains(s1[i]));
        assert(s2.contains(s1[i]));
        let j = choose|j: int| 0 <= j < s2.len() && s2[j] == s1[i];
        lemma_first_visible_member(s1, i);
        lemma_first_visible_member(s2, j);
    } else {
        lemma_first_visible_absent(s1, kind);
        assert forall|j: int| 0 <= j < s2.len() implies (#[trigger] s2[j]).kind != kind by {
            assert(s2.contains(s2[j]));
            assert(s1.contains(s2[j]));
            let i = choose|i: int| 0 <= i < s1.len() && s1[i] == s2[j];
            assert(s1[i].kind != kind);
        }
        lemma_first_visible_absent(s2, kind);
    }
}

/// Reordering samples of distinct kinds does not change the icon's cells.
pub proof fn lemma_icon_ignores_order(s1: Seq<MetricSample>, s2: Seq<MetricSample>)
    requires
        distinct_kinds(s1),
        distinct_kinds(s2),
        forall|x: MetricSample| s1.contains(x) <==> s2.contains(x),
    ensures
        grid_cells(s1) == grid_cells(s2),
{
    lemma_first_visible_same(s1, s2, MetricKind::Cpu);
    lemma_first_visible_same(s1, s2, MetricKind::Memory);
    lemma_first_visible_same(s1, s2, MetricKind::Gpu);
    lemma_first_visible_same(s1, s2, MetricKind::Npu);
}

proof fn lemma_first_visible_of_icon_samples(samples: Seq<MetricSample>, kind: MetricKind)
    ensures
        first_visible(icon_samples(samples), kind) == first_visible(samples, kind),
    decreases samples.len(),
{
    if samples.len() > 0 {
        let rest = samples.drop_first();
        lemma_first_visible_of_icon_samples(rest, kind);
        let kept = icon_samples(samples);
        if icon_visible(samples[0]) {
            assert(kept[0] == samples[0]);
            assert(kept.drop_first() =~= icon_samples(rest));
        } else {
            assert(kept =~= icon_samples(rest));
        }
    }
}

/// Dropping the Network samples and the samples without a percentage does not change
/// the icon's cells; with no other samples the icon is the one of an empty snapshot.
pub proof fn lemma_icon_ignores_hidden_samples(samples: Seq<MetricSample>)
    ensures
        grid_cells(icon_samples(samples)) == grid_cells(samples),
        icon_samples(samples).len() == 0 ==> grid_cells(samples) == grid_cells(seq![]),
{
    lemma_first_visible_of_icon_samples(samples, MetricKind::Cpu);
    lemma_first_visible_of_icon_samples(samples, MetricKind::Memory);
    lemma_first_visible_of_icon_samples(samples, MetricKind::Gpu);
    lemma_first_visible_of_icon_samples(samples, MetricKind::Npu);
}

/// The track colour of a fresh settings file is a valid colour, so the icon of the
/// default settings always renders.
pub proof fn lemma_default_track_color()
    ensures
        !hex_color_splits_char("#2b2f36"@),
        hex_color("#2b2f36"@) == Ok::<Rgba, HexColorError>(Rgba { r: 0x2b, g: 0x2f, b: 0x36, a: 255 }),
{
    reveal_strlit("#2b2f36");
    let s = "#2b2f36"@;
    let v = s.drop_first();
    assert(trim_start(s) == s);
    assert(trim_end(s) == s);
    assert(trim(s) == s);
    assert(s.drop_first() =~= v);
    assert(strip_leading(v, '#') == v);
    assert(strip_leading(s, '#') == v);
    assert(hex_color_body(s) == v);
    assert(v.len() == 6);
    reveal_with_fuel(utf8_len, 7);
    assert(v.take(2).drop_last() =~= v.take(1));
    assert(v.take(1).drop_last() =~= v.take(0));
    assert(utf8_len(v.take(2)) == 2);
    assert(v.take(4).drop_last() =~= v.take(3));
    assert(v.take(3).drop_last() =~= v.take(2));
    assert(utf8_len(v.take(4)) == 4);
    assert(v.take(6) =~= v);
    assert(v.take(5).drop_last() =~= v.take(4));
    assert(v.take(6).drop_last() =~= v.take(5));
    assert(utf8_len(v) == 6);
    assert(is_byte_boundary(v, 2));
    assert(is_byte_boundary(v, 4));
}

/// A cell's fill rises from its bottom frame: with a fill of `f` rows, the row just
/// above the bottom frame has the fill colour and the row `f` rows higher still shows
/// the track.
pub proof fn lemma_fill_rises_from_bottom(
    pixels: Seq<u8>,
    width: int,
    rows: int,
    x: int,
    y: int,
    w: int,
    h: int,
    fill: CellFill,
    color: Rgba,
    track: Rgba,
    k: int,
)
    requires
        pixels.len() == width * rows * 4,
        0 <= x,
        0 <= y,
        x + w <= width,
        y + h <= rows,
        w >= 3,
        1 <= fill.height,
        fill.height + 3 <= h,
        0 <= k < 4,
    ensures
        metric_cell(pixels, width, x, y, w, h, fill, color, track)[((y + h - 2) * width + x + 1) * 4
            + k] == channel(Rgba { a: fill.alpha, ..color }, k),
        metric_cell(pixels, width, x, y, w, h, fill, color, track)[((y + h - 2 - fill.height) * width
            + x + 1) * 4 + k] == channel(Rgba { a: 110, ..track }, k),
{
    let low = (y + h - 2) * width + x + 1;
    let high = (y + h - 2 - fill.height) * width + x + 1;
    lemma_pixel_index(width, x + 1, y + h - 2);
    lemma_pixel_index(width, x + 1, y + h - 2 - fill.height);
    assert(low * 4 + k < pixels.len()) by (nonlinear_arith)
        requires
            low == (y + h - 2) * width + x + 1,
            x + 1 < width,
            0 <= y + h - 2 < rows,
            pixels.len() == width * rows * 4,
            0 <= k < 4,
    {
        assert((y + h - 2) * width + x + 1 < (y + h - 2) * width + width);
        assert((y + h - 2) * width + width == (y + h - 1) * width);
        assert((y + h - 1) * width <= rows * width);
    }
    assert(high * 4 + k < pixels.len()) by (nonlinear_arith)
        requires
            high == (y + h - 2 - fill.height) * width + x + 1,
            x + 1 < width,
            0 <= y + h - 2 - fill.height < rows,
            pixels.len() == width * rows * 4,
            0 <= k < 4,
    {
        assert((y + h - 2 - fill.height) * width + x + 1 < (y + h - 2 - fill.height) * width + width);
        assert((y + h - 2 - fill.height) * width + width == (y + h - 1 - fill.height) * width);
        assert((y + h - 1 - fill.height) * width <= rows * width);
    }
}

/// A GPU or NPU that the machine does not expose shows as `unsupported` in the tooltip,
/// and a machine that reports no memory total shows memory as `unknown`; neither fails.
pub proof fn lemma_unavailable_metrics_shown(sample: MetricSample, kind: MetricKind, readings: Readings)
    requires
        is_sample_for(sample, kind, readings),
    ensures
        (kind == MetricKind::Gpu && readings.gpu_usage is None) || (kind == MetricKind::Npu
            && readings.npu_usage is None) ==> sample_text(sample) == kind_label(kind)
            + " unsupported"@,
        kind == MetricKind::Memory && readings.memory_total == 0 ==> sample_text(sample) == kind_label(
            kind,
        ) + " unknown"@,
{
}

/// The icon's edge is the configured size whenever that lies in `16..=64`, and the
/// nearer bound otherwise.
pub proof fn lemma_icon_size_clamps(configured: u32)
    ensures
        16 <= configured <= 64 ==> icon_size(configured) == configured,
        configured < 16 ==> icon_size(configured) == 16,
        configured > 64 ==> icon_size(configured) == 64,
        16 <= icon_size(configured) <= 64,
{
}

/// The "nothing to show" picture paints exactly three bars of equal width, from a
/// quarter of the width in on the left to a quarter in on the right: rows
/// `m..m+b`, `size/2..size/2+b` and `size-m-b..size-m`, with `m = size/4` and
/// `b = size/8`. Every other pixel is left as it was.
pub proof fn lemma_empty_state_bars(pixels: Seq<u8>, size: int, color: Rgba)
    requires
        size > 0,
    ensures
        empty_state(pixels, size, color).len() == pixels.len(),
        forall|i: int|
            0 <= i < pixels.len() ==> {
                let px = (i / 4) % size;
                let py = (i / 4) / size;
                let m = size / 4;
                let b = size / 8;
                let in_bar = (m <= py < m + b) || (size / 2 <= py < size / 2 + b) || (size - m - b
                    <= py < size - m);
                #[trigger] empty_state(pixels, size, color)[i] == if m <= px < size - m && in_bar {
                    channel(color, i % 4)
                } else {
                    pixels[i]
                }
            },
{
}

/// The value a hexadecimal digit character stands for: `0`-`9`, then `a`-`f` or `A`-`F`
/// as 10 to 15.
pub open spec fn is_hex_char(c: char) -> bool {
    ('0' <= c <= '9') || ('a' <= c <= 'f') || ('A' <= c <= 'F')
}

/// Every hexadecimal digit character has its value, and nothing else is a digit.
pub proof fn lemma_hex_digit_values(c: char)
    ensures
        '0' <= c <= '9' ==> hex_digit(c) == Some((c as u32 - 48) as u8),
        'a' <= c <= 'f' ==> hex_digit(c) == Some((c as u32 - 87) as u8),
        'A' <= c <= 'F' ==> hex_digit(c) == Some((c as u32 - 55) as u8),
        !is_hex_char(c) ==> hex_digit(c) is None,
        hex_digit(c) matches Some(v) ==> v < 16,
{
}

/// The value of the hexadecimal digit character `c`.
pub open spec fn hex_char_value(c: char) -> int {
    if c <= '9' {
        c as u32 - 48
    } else if c <= 'F' {
        c as u32 - 55
    } else {
        c as u32 - 87
    }
}

/// `#` followed by six hexadecimal digits is the opaque colour whose channels are the
/// digit pairs read in base 16.
pub proof fn lemma_hex_color_of_digits(digits: Seq<char>)
    requires
        digits.len() == 6,
        forall|i: int| 0 <= i < 6 ==> is_hex_char(#[trigger] digits[i]),
    ensures
        hex_color(seq!['#'] + digits) == Ok::<Rgba, HexColorError>(
            Rgba {
                r: (16 * hex_char_value(digits[0]) + hex_char_value(digits[1])) as u8,
                g: (16 * hex_char_value(digits[2]) + hex_char_value(digits[3])) as u8,
                b: (16 * hex_char_value(digits[4]) + hex_char_value(digits[5])) as u8,
                a: 255,
            },
        ),
{
    let s = seq!['#'] + digits;
    assert(is_hex_char(digits[0]));
    assert(is_hex_char(digits[5]));
    assert(s[0] == '#');
    assert(s.last() == digits[5]);
    assert(trim_start(s) == s);
    assert(trim_end(s) == s);
    assert(s.drop_first() =~= digits);
    assert(strip_leading(digits, '#') == digits);
    assert(hex_color_body(s) == digits);
    reveal_with_fuel(utf8_len, 7);
    assert(digits.drop_last().drop_last().drop_last().drop_last().drop_last().drop_last().len() == 0);
    assert(utf8_len(digits) == 6) by {
        let d = digits;
        assert(is_hex_char(d[1]));
        assert(is_hex_char(d[2]));
        assert(is_hex_char(d[3]));
        assert(is_hex_char(d[4]));
        assert(d.drop_last().last() == d[4]);
        assert(d.drop_last().drop_last().last() == d[3]);
        assert(d.drop_last().drop_last().drop_last().last() == d[2]);
        assert(d.drop_last().drop_last().drop_last().drop_last().last() == d[1]);
        assert(d.drop_last().drop_last().drop_last().drop_last().drop_last().last() == d[0]);
    }
    assert forall|i: int| 0 <= i < 6 implies hex_digit(#[trigger] digits[i]) == Some(
        hex_char_value(digits[i]) as u8,
    ) by {
        assert(is_hex_char(digits[i]));
    }
}

proof fn lemma_chunk_line_skip(texts: Seq<Seq<char>>, c: int)
    requires
        texts.len() >= 2,
        0 <= c,
        2 * c < texts.len() - 2,
    ensures
        chunk_line(texts.skip(2), c) == chunk_line(texts, c + 1),
{
    let t = texts.skip(2);
    assert(t[2 * c] == texts[2 * c + 2]);
    if 2 * c + 1 < t.len() {
        assert(t[2 * c + 1] == texts[2 * c + 3]);
    }
}

proof fn lemma_metric_lines_front(texts: Seq<Seq<char>>, n: nat)
    requires
        n >= 2,
        2 * (n - 1) < texts.len(),
    ensures
        metric_lines(texts, n) == chunk_line(texts, 0) + "\n"@ + metric_lines(
            texts.skip(2),
            (n - 1) as nat,
        ),
    decreases n,
{
    let t = texts.skip(2);
    lemma_chunk_line_skip(texts, (n - 2) as int);
    if n == 2 {
        assert(metric_lines(t, 1) == chunk_line(t, 0));
        assert(metric_lines(texts, 1) == chunk_line(texts, 0));
        assert(metric_lines(texts, 2) == metric_lines(texts, 1) + "\n"@ + chunk_line(texts, 1));
        assert(metric_lines(texts, n) =~= chunk_line(texts, 0) + "\n"@ + metric_lines(t, 1));
    } else {
        lemma_metric_lines_front(texts, (n - 1) as nat);
        assert(metric_lines(t, (n - 1) as nat) == metric_lines(t, (n - 2) as nat) + "\n"@ + chunk_line(
            t,
            n - 2,
        ));
        assert(metric_lines(texts, n) =~= chunk_line(texts, 0) + "\n"@ + metric_lines(
            t,
            (n - 1) as nat,
        ));
    }
}

/// The tooltip of one sample is the name and that sample's text on the next line; of two
/// samples, the name and both texts on one line, joined by `" | "`.
pub proof fn lemma_tooltip_first_line(app_name: Seq<char>, samples: Seq<MetricSample>)
    ensures
        samples.len() == 1 ==> tooltip(app_name, samples) == app_name + "\n"@ + sample_text(samples[0]),
        samples.len() == 2 ==> tooltip(app_name, samples) == app_name + "\n"@ + sample_text(samples[0])
            + " | "@ + sample_text(samples[1]),
{
    let texts = samples.map_values(|x: MetricSample| sample_text(x));
    if samples.len() == 1 || samples.len() == 2 {
        assert(metric_lines(texts, 1) == chunk_line(texts, 0));
    }
}

/// Every further pair of samples is a line of its own: the tooltip of more than two
/// samples is the tooltip of the first two, followed by a newline and the lines of the
/// rest, just as if the first line had been part of the name.
pub proof fn lemma_tooltip_pairs_per_line(app_name: Seq<char>, samples: Seq<MetricSample>)
    requires
        samples.len() > 2,
    ensures
        tooltip(app_name, samples) == tooltip(tooltip(app_name, samples.take(2)), samples.skip(2)),
{
    let f = |x: MetricSample| sample_text(x);
    let texts = samples.map_values(f);
    let first = samples.take(2);
    let rest = samples.skip(2);
    assert(rest.map_values(f) =~= texts.skip(2));
    assert(first.map_values(f) =~= texts.take(2));
    let n = ((samples.len() + 1) / 2) as nat;
    lemma_metric_lines_front(texts, n);
    assert(metric_lines(texts.take(2), 1) == chunk_line(texts.take(2), 0));
    assert(chunk_line(texts.take(2), 0) == chunk_line(texts, 0));
    assert(((rest.len() + 1) / 2) as nat == (n - 1) as nat);
    assert(tooltip(app_name, first) == app_name + "\n"@ + chunk_line(texts, 0));
    assert(tooltip(app_name, samples) =~= tooltip(tooltip(app_name, first), rest));
}

/// Each tooltip entry names its metric (`CPU`, `MEM`, `GPU`, `NPU`, `NET`) followed by a
/// space and then the display text, or the percentage with a `%` sign, or
/// `unsupported` / `unknown` when there is neither.
pub proof fn lemma_sample_text_forms(sample: MetricSample)
    ensures
        ({
            let label = match sample.kind {
                MetricKind::Cpu => "CPU"@,
                MetricKind::Memory => "MEM"@,
                MetricKind::Gpu => "GPU"@,
                MetricKind::Npu => "NPU"@,
                MetricKind::Network => "NET"@,
            };
            &&& sample.display_value matches Some(v) ==> sample_text(sample) == label + seq![' '] + v@
            &&& (sample.display_value is None && sample.value_percent is Some) ==> sample_text(sample)
                == label + seq![' '] + percent_digits(sample.value_percent->0) + seq!['%']
            &&& (sample.display_value is None && sample.value_percent is None && sample.status
                == MetricStatus::Unsupported) ==> sample_text(sample) == label + seq![' '] + seq![
                'u', 'n', 's', 'u', 'p', 'p', 'o', 'r', 't', 'e', 'd']
            &&& (sample.display_value is None && sample.value_percent is None && sample.status
                == MetricStatus::Available) ==> sample_text(sample) == label + seq![' '] + seq![
                'u', 'n', 'k', 'n', 'o', 'w', 'n']
        }),
{
    reveal_strlit(" ");
    reveal_strlit("%");
    reveal_strlit(" unsupported");
    reveal_strlit(" unknown");
    let label = kind_label(sample.kind);
    assert(label + " "@ =~= label + seq![' ']);
    assert(label + " unsupported"@ =~= label + seq![' '] + seq!['u', 'n', 's', 'u', 'p', 'p', 'o', 'r', 't', 'e', 'd']);
    assert(label + " unknown"@ =~= label + seq![' '] + seq!['u', 'n', 'k', 'n', 'o', 'w', 'n']);
    if let Some(bits) = sample.value_percent {
        assert(label + " "@ + percent_digits(bits) + "%"@ =~= label + seq![' '] + percent_digits(bits) + seq!['%']);
    }
    if let Some(v) = sample.display_value {
        assert(label + " "@ + v@ =~= label + seq![' '] + v@);
    }
}

} // verus!
