use crate::math::Color;
use crate::text::{
    chars_of, decimal, decimal_value, is_decimal, is_white_space, lemma_decimal_no_space,
    lemma_word_scan_append, parse_decimal, push_decimal, split_words, string_of, word_scan, words,
    words_view,
};
use vstd::prelude::*;

verus! {

/// A rectangular buffer of pixels, row-major, top row first.
#[derive(Debug, Clone)]
pub struct Image {
    pub data: Vec<Color>,
    pub width: usize,
    pub height: usize,
}

/// Why a PPM text could not be read as an image.
#[derive(Debug)]
pub struct PPMLoadError {
    pub msg: String,
}

impl Image {
    /// An image is well formed when it holds exactly `width * height` pixels.
    pub open spec fn wf(&self) -> bool {
        &&& self.data@.len() == self.width * self.height
        &&& self.width * self.height <= usize::MAX
    }

    /// A black image of the given size.
    pub fn new(width: usize, height: usize) -> (img: Image)
        requires
            width * height <= usize::MAX,
        ensures
            img.wf(),
            img.width == width,
            img.height == height,
            forall|i: int| 0 <= i < img.data@.len() ==> img.data@[i] == (Color { r: 0, g: 0, b: 0 }),
    {
        let n: usize = width * height;
        let data: Vec<Color> = vec![Color::black(); n];
        Image { data, width, height }
    }
}

pub open spec fn black() -> Color {
    Color { r: 0, g: 0, b: 0 }
}

/// `"<r> <g> <b>\n"`.
pub open spec fn pixel_line(c: Color) -> Seq<char> {
    decimal(c.r as nat).push(' ') + decimal(c.g as nat).push(' ') + decimal(c.b as nat).push('\n')
}

/// One line per pixel, in order.
pub open spec fn pixels_text(px: Seq<Color>) -> Seq<char>
    decreases px.len(),
{
    if px.len() == 0 {
        Seq::empty()
    } else {
        pixels_text(px.drop_last()) + pixel_line(px.last())
    }
}

/// `"P3\n<W> <H>\n255\n"`.
pub open spec fn ppm_header(width: nat, height: nat) -> Seq<char> {
    seq!['P', '3'].push('\n') + decimal(width).push(' ') + decimal(height).push('\n') + decimal(255).push('\n')
}

/// The PPM P3 text of an image: the header, then one line per pixel.
pub open spec fn ppm_text(width: nat, height: nat, px: Seq<Color>) -> Seq<char> {
    ppm_header(width, height) + pixels_text(px)
}

/// A channel value read against the maximum `max`, scaled to `0..=255`.
pub open spec fn scaled_channel(word: Seq<char>, max: nat) -> u8 {
    (decimal_value(word) * 255 / max) as u8
}

/// The image that a PPM P3 text describes: width, height and pixels.
///
/// The text is read as white-space-separated words: `P3`, the width, the
/// height, the maximum channel value (1 to 65535), then three channel values
/// for each pixel, none above the maximum. There may be fewer pixels than
/// `width * height`: the rest are black.
pub open spec fn ppm_decoded(s: Seq<char>) -> Option<(nat, nat, Seq<Color>)> {
    let t = words(s);
    if t.len() >= 4 && t[0] == seq!['P', '3'] && is_decimal(t[1]) && is_decimal(t[2]) && is_decimal(t[3]) {
        let width = decimal_value(t[1]);
        let height = decimal_value(t[2]);
        let max = decimal_value(t[3]);
        let given = (t.len() - 4) / 3;
        if 1 <= max <= 65535 && width * height <= usize::MAX && (t.len() - 4) % 3 == 0 && given
            <= width * height && forall|i: int|
            4 <= i < t.len() ==> is_decimal(#[trigger] t[i]) && decimal_value(t[i]) <= max {
            Some(
                (
                    width,
                    height,
                    Seq::new(
                        width * height,
                        |i: int|
                            if i < given {
                                Color {
                                    r: scaled_channel(t[4 + 3 * i], max),
                                    g: scaled_channel(t[5 + 3 * i], max),
                                    b: scaled_channel(t[6 + 3 * i], max),
                                }
                            } else {
                                black()
                            },
                    ),
                ),
            )
        } else {
            None
        }
    } else {
        None
    }
}

/// A text with a channel word that is not a number within the maximum
/// describes no image.
proof fn lemma_rejects_word(s: Seq<char>, i: int)
    ensures
        ({
            let t = words(s);
            (4 <= i < t.len() && t.len() >= 4 && is_decimal(t[3]) && !(is_decimal(t[i]) && decimal_value(t[i]) <= decimal_value(t[3])))
                ==> ppm_decoded(s) is None
        }),
{
}

impl Image {
    /// The image as PPM P3 text.
    pub fn to_ppm(&self) -> (r: String)
        ensures
            r@ == ppm_text(self.width as nat, self.height as nat, self.data@),
    {
        let mut out: Vec<char> = Vec::new();
        out.push('P');
        out.push('3');
        out.push('\n');
        push_decimal(&mut out, self.width);
        out.push(' ');
        push_decimal(&mut out, self.height);
        out.push('\n');
        push_decimal(&mut out, 255);
        out.push('\n');
        assert(out@ =~= ppm_header(self.width as nat, self.height as nat));
        let mut i: usize = 0;
        while i < self.data.len()
            invariant
                i <= self.data@.len(),
                out@ == ppm_header(self.width as nat, self.height as nat) + pixels_text(self.data@.take(i as int)),
            decreases self.data@.len() - i,
        {
            let c: Color = self.data[i];
            let ghost before = out@;
            push_decimal(&mut out, c.r as usize);
            out.push(' ');
            push_decimal(&mut out, c.g as usize);
            out.push(' ');
            push_decimal(&mut out, c.b as usize);
            out.push('\n');
            assert(self.data@.take(i + 1).drop_last() =~= self.data@.take(i as int));
            assert(out@ =~= before + pixel_line(c));
            i = i + 1;
        }
        assert(self.data@.take(self.data@.len() as int) =~= self.data@);
        string_of(out.as_slice())
    }

    /// Reads an image from PPM P3 text; see `ppm_decoded` for the form read.
    pub fn from_ppm(text: &str) -> (r: Result<Image, PPMLoadError>)
        ensures
            match ppm_decoded(text@) {
                Some((w, h, px)) => r is Ok && r->Ok_0.width == w && r->Ok_0.height == h && r->Ok_0.data@ == px,
                None => r is Err,
            },
    {
        let cs: Vec<char> = chars_of(text);
        let t: Vec<Vec<char>> = split_words(&cs);
        let ghost tv = words(text@);
        assert(tv.len() == t@.len());
        assert(forall|i: int| 0 <= i < t@.len() ==> tv[i] == #[trigger] t@[i]@);
        if t.len() < 4 {
            return Err(PPMLoadError { msg: String::from_str("PPM text is missing its header") });
        }
        if !(t[0].len() == 2 && t[0][0] == 'P' && t[0][1] == '3') {
            return Err(PPMLoadError { msg: String::from_str("PPM text is not in P3 format") });
        }
        assert(tv[0] =~= seq!['P', '3']);
        let width: usize = match parse_decimal(&t[1]) {
            Some(v) => v,
            None => {
                return Err(PPMLoadError { msg: String::from_str("PPM width is not a number") });
            },
        };
        let height: usize = match parse_decimal(&t[2]) {
            Some(v) => v,
            None => {
                return Err(PPMLoadError { msg: String::from_str("PPM height is not a number") });
            },
        };
        let max: usize = match parse_decimal(&t[3]) {
            Some(v) => v,
            None => {
                return Err(PPMLoadError { msg: String::from_str("PPM maximum value is not a number") });
            },
        };
        if max < 1 || max > 65535 {
            return Err(PPMLoadError { msg: String::from_str("PPM maximum value is out of range") });
        }
        let n: usize = match width.checked_mul(height) {
            Some(v) => v,
            None => {
                return Err(PPMLoadError { msg: String::from_str("PPM size is too large") });
            },
        };
        if (t.len() - 4) % 3 != 0 {
            return Err(PPMLoadError { msg: String::from_str("the number of PPM values is not a multiple of three") });
        }
        let given: usize = (t.len() - 4) / 3;
        if given > n {
            return Err(PPMLoadError { msg: String::from_str("PPM text has more pixels than its size") });
        }
        let mut data: Vec<Color> = vec![Color::black(); n];
        let mut k: usize = 0;
        let tl: usize = t.len();
        while k < given
            invariant
                tl == t@.len(),
                tv == words(text@),
                k <= given,
                given == (t@.len() - 4) / 3,
                (t@.len() - 4) % 3 == 0,
                t@.len() >= 4,
                given <= n,
                1 <= max <= 65535,
                max == decimal_value(tv[3]),
                tv.len() == t@.len(),
                forall|i: int| 0 <= i < t@.len() ==> tv[i] == #[trigger] t@[i]@,
                data@.len() == n,
                forall|i: int| 4 <= i < 4 + 3 * k ==> is_decimal(#[trigger] tv[i]) && decimal_value(tv[i]) <= max,
                forall|i: int| 0 <= i < k ==> #[trigger] data@[i] == (Color {
                    r: scaled_channel(tv[4 + 3 * i], max as nat),
                    g: scaled_channel(tv[5 + 3 * i], max as nat),
                    b: scaled_channel(tv[6 + 3 * i], max as nat),
                }),
                forall|i: int| k <= i < n ==> #[trigger] data@[i] == black(),
            decreases given - k,
        {
            assert(3 * k + 7 <= tl) by (nonlinear_arith)
                requires k < given, given == (tl - 4) / 3, tl >= 4;
            let base: usize = 4 + 3 * k;
            assert(tv[base as int] == t@[base as int]@);
            assert(tv[base + 1] == t@[base + 1]@);
            assert(tv[base + 2] == t@[base + 2]@);
            let r: usize = match parse_decimal(&t[base]) {
                Some(v) => v,
                None => {
                    proof {
                        lemma_rejects_word(text@, base as int + 0);
                        lemma_rejects_word(text@, base as int + 1);
                        lemma_rejects_word(text@, base as int + 2);
                    }
                    return Err(PPMLoadError { msg: String::from_str("PPM channel is not a number") });
                },
            };
            let g: usize = match parse_decimal(&t[base + 1]) {
                Some(v) => v,
                None => {
                    proof {
                        lemma_rejects_word(text@, base as int + 0);
                        lemma_rejects_word(text@, base as int + 1);
                        lemma_rejects_word(text@, base as int + 2);
                    }
                    return Err(PPMLoadError { msg: String::from_str("PPM channel is not a number") });
                },
            };
            let b: usize = match parse_decimal(&t[base + 2]) {
                Some(v) => v,
                None => {
                    proof {
                        lemma_rejects_word(text@, base as int + 0);
                        lemma_rejects_word(text@, base as int + 1);
                        lemma_rejects_word(text@, base as int + 2);
                    }
                    return Err(PPMLoadError { msg: String::from_str("PPM channel is not a number") });
                },
            };
            if r > max || g > max || b > max {
                proof {
                    lemma_rejects_word(text@, base as int + 0);
                    lemma_rejects_word(text@, base as int + 1);
                    lemma_rejects_word(text@, base as int + 2);
                }
                return Err(PPMLoadError { msg: String::from_str("PPM channel is above the maximum value") });
            }
            proof {
                assert((r as int) * 255 / (max as int) <= 255) by (nonlinear_arith)
                    requires r <= max, max >= 1;
                assert((g as int) * 255 / (max as int) <= 255) by (nonlinear_arith)
                    requires g <= max, max >= 1;
                assert((b as int) * 255 / (max as int) <= 255) by (nonlinear_arith)
                    requires b <= max, max >= 1;
            }
            let c = Color { r: (r * 255 / max) as u8, g: (g * 255 / max) as u8, b: (b * 255 / max) as u8 };
            data.set(k, c);
            k = k + 1;
        }
        let img = Image { data, width, height };
        proof {
            assert(forall|i: int| 4 <= i < tv.len() ==> is_decimal(#[trigger] tv[i]) && decimal_value(tv[i]) <= max);
            let (w2, h2, px) = ppm_decoded(text@)->Some_0;
            assert(img.data@ =~= px);
        }
        Ok(img)
    }
}

/// The channel values of the pixels as decimal words, three per pixel.
pub open spec fn channel_words(px: Seq<Color>) -> Seq<Seq<char>>
    decreases px.len(),
{
    if px.len() == 0 {
        Seq::empty()
    } else {
        channel_words(px.drop_last()) + seq![
            decimal(px.last().r as nat),
            decimal(px.last().g as nat),
            decimal(px.last().b as nat),
        ]
    }
}

proof fn lemma_pixels_words(a: Seq<char>, px: Seq<Color>)
    requires
        word_scan(a).1.len() == 0,
    ensures
        word_scan(a + pixels_text(px)) == (word_scan(a).0 + channel_words(px), Seq::<char>::empty()),
    decreases px.len(),
{
    if px.len() == 0 {
        assert(a + pixels_text(px) =~= a);
        assert(word_scan(a).0 + channel_words(px) =~= word_scan(a).0);
    } else {
        let p = px.drop_last();
        let c = px.last();
        lemma_pixels_words(a, p);
        let a1 = a + pixels_text(p);
        let dr = decimal(c.r as nat);
        let dg = decimal(c.g as nat);
        let db = decimal(c.b as nat);
        lemma_decimal_no_space(c.r as nat);
        lemma_decimal_no_space(c.g as nat);
        lemma_decimal_no_space(c.b as nat);
        lemma_word_scan_append(a1, dr, ' ');
        let a2 = a1 + dr.push(' ');
        lemma_word_scan_append(a2, dg, ' ');
        let a3 = a2 + dg.push(' ');
        lemma_word_scan_append(a3, db, '\n');
        assert(a + pixels_text(px) =~= a3 + db.push('\n'));
        assert(word_scan(a).0 + channel_words(px) =~= word_scan(a1).0.push(dr).push(dg).push(db));
    }
}

proof fn lemma_channel_words_index(px: Seq<Color>, i: int)
    requires
        0 <= i < px.len(),
    ensures
        channel_words(px).len() == 3 * px.len(),
        channel_words(px)[3 * i] == decimal(px[i].r as nat),
        channel_words(px)[3 * i + 1] == decimal(px[i].g as nat),
        channel_words(px)[3 * i + 2] == decimal(px[i].b as nat),
    decreases px.len(),
{
    let p = px.drop_last();
    if i < px.len() - 1 {
        lemma_channel_words_index(p, i);
    } else if p.len() > 0 {
        lemma_channel_words_index(p, 0);
    }
}

/// PPM text round trip: reading back the PPM text of a well-formed image
/// gives the same width, height and pixels.
pub proof fn lemma_ppm_round_trip(img: Image)
    requires
        img.wf(),
    ensures
        ppm_decoded(ppm_text(img.width as nat, img.height as nat, img.data@)) == Some(
            (img.width as nat, img.height as nat, img.data@),
        ),
{
    let w = img.width as nat;
    let h = img.height as nat;
    let px = img.data@;
    let p3 = seq!['P', '3'];
    let dw = decimal(w);
    let dh = decimal(h);
    let dm = decimal(255);
    lemma_decimal_no_space(w);
    lemma_decimal_no_space(h);
    lemma_decimal_no_space(255);
    assert(forall|i: int| 0 <= i < p3.len() ==> !is_white_space(#[trigger] p3[i]));
    let e = Seq::<char>::empty();
    assert(word_scan(e) == (Seq::<Seq<char>>::empty(), e));
    lemma_word_scan_append(e, p3, '\n');
    let h1 = e + p3.push('\n');
    lemma_word_scan_append(h1, dw, ' ');
    let h2 = h1 + dw.push(' ');
    lemma_word_scan_append(h2, dh, '\n');
    let h3 = h2 + dh.push('\n');
    lemma_word_scan_append(h3, dm, '\n');
    let h4 = h3 + dm.push('\n');
    assert(h4 =~= ppm_header(w, h));
    let hw = seq![p3, dw, dh, dm];
    assert(word_scan(h4).0 =~= hw);
    lemma_pixels_words(h4, px);
    let t = words(ppm_text(w, h, px));
    assert(t == hw + channel_words(px));
    let n = px.len();
    if n > 0 {
        lemma_channel_words_index(px, 0);
    } else {
        assert(channel_words(px).len() == 0);
    }
    assert(t.len() == 4 + 3 * n);
    assert(t[0] == p3);
    assert(t[1] == dw);
    assert(t[2] == dh);
    assert(t[3] == dm);
    assert((t.len() - 4) / 3 == n);
    assert forall|i: int| 4 <= i < t.len() implies is_decimal(#[trigger] t[i]) && decimal_value(t[i]) <= 255 by {
        let j = (i - 4) / 3;
        let k = (i - 4) % 3;
        lemma_channel_words_index(px, j);
        assert(t[i] == channel_words(px)[3 * j + k]);
        lemma_decimal_no_space(px[j].r as nat);
        lemma_decimal_no_space(px[j].g as nat);
        lemma_decimal_no_space(px[j].b as nat);
    }
    let (w2, h2x, out) = ppm_decoded(ppm_text(w, h, px))->Some_0;
    assert forall|i: int| 0 <= i < n implies #[trigger] out[i] == px[i] by {
        lemma_channel_words_index(px, i);
        assert(t[4 + 3 * i] == decimal(px[i].r as nat));
        assert(t[5 + 3 * i] == decimal(px[i].g as nat));
        assert(t[6 + 3 * i] == decimal(px[i].b as nat));
        lemma_decimal_no_space(px[i].r as nat);
        lemma_decimal_no_space(px[i].g as nat);
        lemma_decimal_no_space(px[i].b as nat);
    }
    assert(out =~= px);
}

} // verus!
