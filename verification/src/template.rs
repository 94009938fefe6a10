use vstd::prelude::*;
use vstd::string::StrSliceExecFns;

use crate::image::{hex_of, table_view};

verus! {

/// The value of one hexadecimal digit character, or a negative answer
/// for any other character.
pub open spec fn hex_digit_val(c: char) -> int {
    if c == '0' {
        0
    } else if c == '1' {
        1
    } else if c == '2' {
        2
    } else if c == '3' {
        3
    } else if c == '4' {
        4
    } else if c == '5' {
        5
    } else if c == '6' {
        6
    } else if c == '7' {
        7
    } else if c == '8' {
        8
    } else if c == '9' {
        9
    } else if c == 'a' || c == 'A' {
        10
    } else if c == 'b' || c == 'B' {
        11
    } else if c == 'c' || c == 'C' {
        12
    } else if c == 'd' || c == 'D' {
        13
    } else if c == 'e' || c == 'E' {
        14
    } else if c == 'f' || c == 'F' {
        15
    } else {
        -1
    }
}

/// Text that names one byte in hexadecimal: one or two hex digits.
pub open spec fn is_hex_byte_text(s: Seq<char>) -> bool {
    ||| (s.len() == 1 && hex_digit_val(s[0]) >= 0)
    ||| (s.len() == 2 && hex_digit_val(s[0]) >= 0 && hex_digit_val(s[1]) >= 0)
}

/// The byte that one or two hex digits name.
pub open spec fn hex_byte_val(s: Seq<char>) -> u8 {
    if s.len() == 1 {
        hex_digit_val(s[0]) as u8
    } else {
        (hex_digit_val(s[0]) * 16 + hex_digit_val(s[1])) as u8
    }
}

/// One cell of a template sheet.  The sheet lays the frame grid out
/// bottom row first; each frame whose identifier is not empty is
/// filled with a color code per pixel that encodes the pixel's column,
/// the frame identifier, and the pixel's row.
pub open spec fn template_cell(
    fw: int,
    fh: int,
    frames: Seq<Seq<Seq<char>>>,
    r: int,
    c: int,
) -> Seq<char> {
    let vf = frames.len() as int;
    let v = vf * fh;
    let w = c / fw;
    let x = c % fw;
    let rr = v - 1 - r;
    let h = rr / fh;
    let y = rr % fh;
    let id = frames[vf - 1 - h][w];
    if id.len() == 0 {
        Seq::<char>::empty()
    } else {
        hex_of(seq![x as u8, hex_byte_val(id), y as u8, 0u8])
    }
}

/// The whole template sheet: one row of cells per pixel row, bottom
/// frame row first.
pub open spec fn template_spec(fw: int, fh: int, frames: Seq<Seq<Seq<char>>>) -> Seq<
    Seq<Seq<char>>,
> {
    let vf = frames.len() as int;
    let hf = frames[0].len() as int;
    Seq::new(
        (vf * fh) as nat,
        |r: int| Seq::new((hf * fw) as nat, |c: int| template_cell(fw, fh, frames, r, c)),
    )
}

/// The value of one hexadecimal digit character.
fn hex_digit(c: char) -> (r: u8)
    requires
        hex_digit_val(c) >= 0,
    ensures
        r == hex_digit_val(c),
{
    match c {
        '0' => 0,
        '1' => 1,
        '2' => 2,
        '3' => 3,
        '4' => 4,
        '5' => 5,
        '6' => 6,
        '7' => 7,
        '8' => 8,
        '9' => 9,
        'a' | 'A' => 10,
        'b' | 'B' => 11,
        'c' | 'C' => 12,
        'd' | 'D' => 13,
        'e' | 'E' => 14,
        _ => 15,
    }
}

/// The byte a frame identifier names in hexadecimal.
fn hex_byte(s: &str) -> (r: u8)
    requires
        is_hex_byte_text(s@),
    ensures
        r == hex_byte_val(s@),
{
    let len = s.unicode_len();
    if len == 1 {
        hex_digit(s.get_char(0))
    } else {
        hex_digit(s.get_char(0)) * 16 + hex_digit(s.get_char(1))
    }
}

/// Lay a grid of frame identifiers out as a template sheet: every
/// frame with a non-empty identifier becomes a block of color codes,
/// one per pixel, encoding the pixel's place and the identifier.
#[verifier::loop_isolation(false)]
#[verifier::rlimit(60)]
pub fn create(frame_width: u8, frame_height: u8, frames: Vec<Vec<String>>) -> (r: Vec<
    Vec<String>,
>)
    requires
        frame_width > 0,
        frame_height > 0,
        frames@.len() > 0,
        frames@.len() * frame_height <= usize::MAX,
        frames@[0]@.len() * frame_width <= usize::MAX,
        forall|i: int| 0 <= i < frames@.len() ==> (#[trigger] frames@[i])@.len()
            == frames@[0]@.len(),
        forall|i: int, j: int|
            0 <= i < frames@.len() && 0 <= j < frames@[0]@.len() && (
            #[trigger] frames@[i]@[j])@.len() != 0 ==> is_hex_byte_text(frames@[i]@[j]@),
    ensures
        table_view(r@) == template_spec(
            frame_width as int,
            frame_height as int,
            table_view(frames@),
        ),
{
    let ghost fsv = table_view(frames@);
    let ghost fw = frame_width as int;
    let ghost fh = frame_height as int;
    let vertical_frames = frames.len();
    let horizontal_frames = frames[0].len();
    let v = vertical_frames * (frame_height as usize);
    let row_len = horizontal_frames * (frame_width as usize);
    let mut rows: Vec<Vec<String>> = Vec::new();
    let mut r: usize = 0;
    while r < v
        invariant
            0 <= r <= v,
            rows@.len() == r,
            forall|rr: int| 0 <= rr < r ==> (#[trigger] rows@[rr])@.len() == row_len,
            forall|rr: int, cc: int|
                0 <= rr < r && 0 <= cc < row_len ==> (#[trigger] rows@[rr]@[cc])@
                    == template_cell(fw, fh, fsv, rr, cc),
        decreases v - r,
    {
        let mut row: Vec<String> = Vec::new();
        let mut c: usize = 0;
        while c < row_len
            invariant
                0 <= c <= row_len,
                0 <= r < v,
                row@.len() == c,
                forall|cc: int| 0 <= cc < c ==> (#[trigger] row@[cc])@ == template_cell(
                    fw,
                    fh,
                    fsv,
                    r as int,
                    cc,
                ),
            decreases row_len - c,
        {
            let w = c / (frame_width as usize);
            let x = c % (frame_width as usize);
            let rr = v - 1 - r;
            let h = rr / (frame_height as usize);
            let y = rr % (frame_height as usize);
            proof {
                assert(w < horizontal_frames && h < vertical_frames) by (nonlinear_arith)
                    requires
                        0 <= c < horizontal_frames * (frame_width as usize),
                        0 <= rr < vertical_frames * (frame_height as usize),
                        frame_width > 0,
                        frame_height > 0,
                        w == c / (frame_width as usize),
                        h == rr / (frame_height as usize),
                ;
                assert(x < frame_width && y < frame_height) by (nonlinear_arith)
                    requires
                        frame_width > 0,
                        frame_height > 0,
                        x == c % (frame_width as usize),
                        y == rr % (frame_height as usize),
                ;
            }
            let id = &frames[vertical_frames - 1 - h][w];
            if id.as_str().is_empty() {
                row.push(String::new());
            } else {
                let byte = hex_byte(id.as_str());
                let arr: [u8; 4] = [x as u8, byte, y as u8, 0];
                assert(arr@ =~= seq![x as u8, hex_byte_val(fsv[vf_idx(fsv, h as int)][w as int]), y as u8, 0u8]) by {
                    assert(fsv[vf_idx(fsv, h as int)][w as int] == id@);
                }
                let hex = crate::image::to_hex(arr.as_slice());
                row.push(hex);
            }
            assert(row@[c as int]@ == template_cell(fw, fh, fsv, r as int, c as int));
            c = c + 1;
        }
        rows.push(row);
        r = r + 1;
    }
    proof {
        assert(table_view(rows@) =~~= template_spec(fw, fh, fsv));
    }
    rows
}

/// The frame-grid row that sheet row block `h` reads from.
pub open spec fn vf_idx(frames: Seq<Seq<Seq<char>>>, h: int) -> int {
    frames.len() - 1 - h
}

} // verus!
