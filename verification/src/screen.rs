//! Placement on the 640×480 overlay: dialogue boxes, their speech pointers and
//! frame tops, and centered overlay images. Coordinates are whole pixels; the
//! projection of a speaker into the scene happens before these rules.
use vstd::prelude::*;
use crate::menu_layout::trunc_div;

verus! {

/// The dialogue chooses its side from the speaker's height on screen.
pub const AUTO_SIDE: u16 = 0x40;
/// The dialogue box sits above its speaker.
pub const ABOVE: u16 = 0x80;
/// The dialogue box sits below its speaker.
pub const BELOW: u16 = 0x100;

/// Whether a dialogue box sits above its speaker. With automatic placement, a
/// box goes above unless the speaker's pointer is higher than row 176;
/// otherwise the box goes above only when asked to and not asked to go below.
pub fn box_above_speaker(flags: u16, pointer_y: Option<i32>) -> (above: bool)
    ensures
        above == if flags & AUTO_SIDE != 0 {
            pointer_y matches Some(y) ==> y >= 176
        } else {
            flags & BELOW == 0 && flags & ABOVE != 0
        },
{
    if flags & AUTO_SIDE != 0 {
        match pointer_y {
            Some(y) => y >= 176,
            None => true,
        }
    } else {
        flags & BELOW == 0 && flags & ABOVE != 0
    }
}

/// The top of a dialogue frame: a box lower than 48 pixels is framed as a
/// 48-pixel box around its middle.
pub fn frame_top(top: i32, height: i32) -> (r: i32)
    requires
        0 <= height,
        i32::MIN + 24 <= top <= i32::MAX - 24,
    ensures
        r == if height < 48 { top + height / 2 - 24 } else { top as int },
{
    if height < 48 {
        top + height / 2 - 24
    } else {
        top
    }
}

/// Where a dialogue box is anchored.
#[derive(Clone, Copy, Debug, PartialEq, Eq, Structural)]
pub enum BoxAnchor {
    /// One of nine screen cells, row-major.
    ScreenGrid(u8),
    /// A screen point; the origin means the screen's center.
    Screen(i32, i32),
    /// The speaking actor.
    Actor,
}

pub open spec fn clamp_int(v: int, low: int, high: int) -> int {
    if v < low { low } else if v > high { high } else { v }
}

pub open spec fn grid_x(g: int) -> int {
    if g % 3 == 0 { 106 } else if g % 3 == 1 { 318 } else { 530 }
}

pub open spec fn grid_y(g: int) -> int {
    if g / 3 == 0 { 80 } else if g / 3 == 1 { 240 } else { 400 }
}

/// The box's left and top before clamping, and whether it is clamped.
pub open spec fn box_origin(
    anchor: BoxAnchor,
    width: int,
    height: int,
    speaker: Option<(i32, i32)>,
    above: bool,
) -> (int, int, bool) {
    let half_w = width / 2;
    let half_h = height / 2;
    match anchor {
        BoxAnchor::ScreenGrid(g) => (grid_x(g as int) - half_w, grid_y(g as int) - half_h, true),
        BoxAnchor::Screen(x, y) => if x == 0 && y == 0 {
            (320 - half_w, 240 - half_h, false)
        } else {
            (x - half_w, y - half_h, false)
        },
        BoxAnchor::Actor => {
            let (x, y) = match speaker {
                Some(p) => (p.0 as int, p.1 as int),
                None => (320int, 240int),
            };
            (x - half_w, if above { y - 24 - height } else { y + 32 }, true)
        },
    }
}

/// The rectangle `[left, top, right, bottom]` of a dialogue box of `width` by
/// `height` pixels, and its speech pointer.
///
/// A grid cell centers the box on the cell; a screen point centers it on the
/// point; a box attached to its speaker sits 24 pixels above the projected
/// head (`above`) or 32 pixels below the projected feet, centered on the
/// speaker, and an attached pointer takes the speaker's column. Boxes on the
/// grid or attached to a speaker stay 41 pixels inside the screen where they
/// fit.
pub fn dialogue_rect(
    anchor: BoxAnchor,
    width: u16,
    height: u16,
    speaker: Option<(i32, i32)>,
    above: bool,
    pointer: Option<(i32, i32)>,
) -> (r: ([i64; 4], Option<(i32, i32)>))
    requires
        anchor matches BoxAnchor::ScreenGrid(g) ==> g < 9,
    ensures
        ({
            let (left0, top0, clamped) = box_origin(anchor, width as int, height as int, speaker, above);
            let left = if clamped {
                clamp_int(left0, 41, if 599 - width > 41 { 599 - width } else { 41 })
            } else {
                left0
            };
            let top = if clamped {
                clamp_int(top0, 41, if 439 - height > 41 { 439 - height } else { 41 })
            } else {
                top0
            };
            &&& r.0@ == seq![left as i64, top as i64, (left + width) as i64, (top + height) as i64]
            &&& r.1 == match anchor {
                BoxAnchor::Actor => match pointer {
                    Some(p) => Some(
                        (
                            match speaker {
                                Some(s) => s.0,
                                None => 320i32,
                            },
                            p.1,
                        ),
                    ),
                    None => None,
                },
                _ => pointer,
            }
        }),
{
    let w: i64 = width as i64;
    let h: i64 = height as i64;
    let half_w = w / 2;
    let half_h = h / 2;
    let mut pointer = pointer;
    let (mut left, mut top, clamped) = match anchor {
        BoxAnchor::ScreenGrid(g) => {
            let x: i64 = if g % 3 == 0 { 106 } else if g % 3 == 1 { 318 } else { 530 };
            let y: i64 = if g / 3 == 0 { 80 } else if g / 3 == 1 { 240 } else { 400 };
            (x - half_w, y - half_h, true)
        },
        BoxAnchor::Screen(x, y) => {
            let (x, y): (i64, i64) = if x == 0 && y == 0 { (320, 240) } else { (x as i64, y as i64) };
            (x - half_w, y - half_h, false)
        },
        BoxAnchor::Actor => {
            let (x, y): (i32, i32) = match speaker {
                Some(p) => p,
                None => (320, 240),
            };
            if let Some(p) = pointer {
                pointer = Some((x, p.1));
            }
            (x as i64 - half_w, if above { y as i64 - 24 - h } else { y as i64 + 32 }, true)
        },
    };
    if clamped {
        let right_most: i64 = if 599 - w > 41 { 599 - w } else { 41 };
        let bottom_most: i64 = if 439 - h > 41 { 439 - h } else { 41 };
        left = if left < 41 { 41 } else if left > right_most { right_most } else { left };
        top = if top < 41 { 41 } else if top > bottom_most { bottom_most } else { top };
    }
    let right: i64 = left + w;
    let bottom: i64 = top + h;
    let rect = [left, top, right, bottom];
    proof {
        assert(rect@ =~= seq![left, top, right, bottom]);
    }
    (rect, pointer)
}

/// The rectangle of an overlay image centered on its position, from its
/// requested size, where -1 takes the image's own size on that axis. Odd
/// sizes leave the extra pixel on the positive side; the bounds keep the
/// 16-bit range of the overlay's vertex format.
pub open spec fn side(size: i32, image: u32) -> i32 {
    if size == -1 { image as i32 } else { size }
}

pub open spec fn negated(v: i32) -> int {
    if v == i32::MIN { i32::MIN as int } else { -v }
}

pub fn centered_rect(size: [i32; 2], image: [u32; 2]) -> (r: [i16; 4])
    ensures
        ({
            let w = side(size@[0], image@[0]);
            let h = side(size@[1], image@[1]);
            r@ == seq![
                trunc_div(negated(w), 2) as i16,
                trunc_div(negated(h), 2) as i16,
                trunc_div(w as int, 2) as i16,
                trunc_div(h as int, 2) as i16,
            ]
        }),
{
    let w: i32 = if size[0] == -1 { image[0] as i32 } else { size[0] };
    let h: i32 = if size[1] == -1 { image[1] as i32 } else { size[1] };
    let nw: i32 = if w == i32::MIN { i32::MIN } else { -w };
    let nh: i32 = if h == i32::MIN { i32::MIN } else { -h };
    let r = [(nw / 2) as i16, (nh / 2) as i16, (w / 2) as i16, (h / 2) as i16];
    proof {
        assert(r@ =~= seq![
            trunc_div(negated(w), 2) as i16,
            trunc_div(negated(h), 2) as i16,
            trunc_div(w as int, 2) as i16,
            trunc_div(h as int, 2) as i16,
        ]);
    }
    r
}

/// The widest line so far, the width of the current line and the number of
/// lines, after the first `i` glyphs of a page. A glyph is a line break
/// (`None`) or an advance in pixels; a break that ends the page adds no line.
pub open spec fn measure(glyphs: Seq<Option<u32>>, i: int) -> (int, int, int)
    decreases i,
{
    if i <= 0 {
        (0, 0, 1)
    } else {
        let (widest, x, lines) = measure(glyphs, i - 1);
        match glyphs[i - 1] {
            None => (if x > widest { x } else { widest }, 0, if i < glyphs.len() { lines + 1 } else { lines }),
            Some(a) => (widest, x + a, lines),
        }
    }
}

/// The width and number of lines of a page.
pub open spec fn page_size(glyphs: Seq<Option<u32>>) -> (int, int) {
    let (widest, x, lines) = measure(glyphs, glyphs.len() as int);
    (if x > widest { x } else { widest }, lines)
}

/// The size of a dialogue box holding `pages`, before any size the script
/// gives: as wide as the widest line, 25 pixels per line of the longest page,
/// and at least one line high.
pub open spec fn box_size(pages: Seq<Seq<Option<u32>>>, n: int) -> (int, int)
    decreases n,
{
    if n <= 0 {
        (0, 25)
    } else {
        let (w, h) = box_size(pages, n - 1);
        let (pw, lines) = page_size(pages[n - 1]);
        (if pw > w { pw } else { w }, if lines * 25 > h { lines * 25 } else { h })
    }
}

proof fn lemma_measure_bounds(glyphs: Seq<Option<u32>>, i: int)
    requires
        0 <= i <= glyphs.len(),
    ensures
        0 <= measure(glyphs, i).0 <= i * (u32::MAX as int),
        0 <= measure(glyphs, i).1 <= i * (u32::MAX as int),
        1 <= measure(glyphs, i).2 <= i + 1,
    decreases i,
{
    if i > 0 {
        lemma_measure_bounds(glyphs, i - 1);
    }
}

fn page_width(glyphs: &Vec<Option<u32>>) -> (size: (u64, u64))
    requires
        glyphs@.len() < 0x1_0000_0000,
    ensures
        size.0 == page_size(glyphs@).0,
        size.1 == page_size(glyphs@).1,
{
    let mut widest: u64 = 0;
    let mut x: u64 = 0;
    let mut lines: u64 = 1;
    let mut i: usize = 0;
    while i < glyphs.len()
        invariant
            i <= glyphs@.len() < 0x1_0000_0000,
            (widest as int, x as int, lines as int) == measure(glyphs@, i as int),
        decreases glyphs@.len() - i,
    {
        proof {
            lemma_measure_bounds(glyphs@, i as int);
            assert((i as int) * (u32::MAX as int) + u32::MAX <= 0x1_0000_0000 * 0x1_0000_0000) by (nonlinear_arith)
                requires
                    i < 0x1_0000_0000,
            ;
        }
        match glyphs[i] {
            None => {
                if x > widest {
                    widest = x;
                }
                x = 0;
                if i + 1 < glyphs.len() {
                    lines = lines + 1;
                }
            },
            Some(advance) => {
                x = x + advance as u64;
            },
        }
        i = i + 1;
    }
    (if x > widest { x } else { widest }, lines)
}

/// The size of a dialogue box holding `pages`: the script's size when it
/// gives one, else the measured size of the widest line and the longest page.
pub fn dialogue_size(pages: &Vec<Vec<Option<u32>>>, dimensions: Option<(u16, u16)>) -> (size: (u64, u64))
    requires
        forall|p: int| 0 <= p < pages@.len() ==> (#[trigger] pages@[p])@.len() < 0x1_0000_0000,
    ensures
        match dimensions {
            Some((w, h)) => size == (w as u64, h as u64),
            None => {
                let measured = box_size(pages@.map_values(|p: Vec<Option<u32>>| p@), pages@.len() as int);
                size.0 == measured.0 && size.1 == measured.1
            },
        },
{
    let ghost views = pages@.map_values(|p: Vec<Option<u32>>| p@);
    let mut width: u64 = 0;
    let mut height: u64 = 25;
    let mut i: usize = 0;
    while i < pages.len()
        invariant
            i <= pages@.len(),
            views == pages@.map_values(|p: Vec<Option<u32>>| p@),
            forall|p: int| 0 <= p < pages@.len() ==> (#[trigger] pages@[p])@.len() < 0x1_0000_0000,
            (width as int, height as int) == box_size(views, i as int),
            height <= 0x1_0000_0001 * 25,
        decreases pages@.len() - i,
    {
        let (w, lines) = page_width(&pages[i]);
        proof {
            assert(views[i as int] == pages@[i as int]@);
            lemma_measure_bounds(pages@[i as int]@, pages@[i as int]@.len() as int);
        }
        if w > width {
            width = w;
        }
        if lines * 25 > height {
            height = lines * 25;
        }
        i = i + 1;
    }
    match dimensions {
        Some((w, h)) => (w as u64, h as u64),
        None => (width, height),
    }
}

/// The subtitle cue shown at decoded movie frame `frame`: the last cue whose
/// first frame (counted from one) has come, when subtitles are on and the
/// movie has them.
pub fn subtitle_cue(cue_frames: &Vec<u32>, frame: Option<u32>, subtitled: bool, enabled: bool) -> (cue: Option<usize>)
    ensures
        match cue {
            Some(i) => {
                &&& subtitled && enabled
                &&& frame matches Some(f) && i < cue_frames@.len() && cue_frames@[i as int] <= f + 1
                &&& forall|j: int| i < j < cue_frames@.len() ==> cue_frames@[j] > frame.unwrap() + 1
            },
            None => !(subtitled && enabled) || frame is None || forall|j: int| 0 <= j < cue_frames@.len() ==> cue_frames@[j]
                > frame.unwrap() + 1,
        },
{
    if !(subtitled && enabled) {
        return None;
    }
    let f = match frame {
        Some(f) => f,
        None => return None,
    };
    let mut k: usize = cue_frames.len();
    while k > 0
        invariant
            k <= cue_frames@.len(),
            subtitled && enabled,
            frame == Some(f),
            forall|j: int| k <= j < cue_frames@.len() ==> cue_frames@[j] > f + 1,
        decreases k,
    {
        if cue_frames[k - 1] as u64 <= f as u64 + 1 {
            return Some(k - 1);
        }
        k = k - 1;
    }
    None
}

/// The nine grid cells are laid out row-major over the screen: cell `g` is
/// centred on column `g % 3` (x = 106, 318, 530) and row `g / 3`
/// (y = 80, 240, 400), so a box on a grid cell starts half its size to the
/// left of and above that centre before it is kept inside the screen.
pub proof fn grid_cells_are_row_major(g: u8, width: int, height: int, speaker: Option<(i32, i32)>, above: bool)
    requires
        g < 9,
    ensures
        box_origin(BoxAnchor::ScreenGrid(g), width, height, speaker, above) == (
            106 + 212 * (g % 3) - width / 2,
            80 + 160 * (g / 3) - height / 2,
            true,
        ),
{
}

} // verus!
