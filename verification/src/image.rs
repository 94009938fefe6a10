use vstd::prelude::*;
use vstd::string::{StrSliceExecFns, StringExecFns};

verus! {

/// How the bytes of one pixel are laid out.
#[derive(Debug, Clone, Copy, PartialEq, Eq, Structural)]
pub enum PixelFormat {
    RGB24,
    RGBA32,
    BGR24,
    BGRA32,
    RGBF,
    RGBAF,
}

/// How many bytes one pixel of `format` occupies.
pub open spec fn bpp_of(format: PixelFormat) -> int {
    match format {
        PixelFormat::RGB24 => 3,
        PixelFormat::BGR24 => 3,
        PixelFormat::RGBA32 => 4,
        PixelFormat::BGRA32 => 4,
        PixelFormat::RGBF => 12,
        PixelFormat::RGBAF => 16,
    }
}

/// One raster image: its pixel bytes, its dimensions, and the layout
/// of each pixel.
pub struct Image {
    data: Vec<u8>,
    width: u32,
    height: u32,
    format: PixelFormat,
}

impl Image {
    /// The pixel bytes.
    pub closed spec fn data_view(&self) -> Seq<u8> {
        self.data@
    }

    /// The width in pixels.
    pub closed spec fn width_view(&self) -> int {
        self.width as int
    }

    /// The height in pixels.
    pub closed spec fn height_view(&self) -> int {
        self.height as int
    }

    /// The pixel layout.
    pub closed spec fn format_view(&self) -> PixelFormat {
        self.format
    }

    /// The held bytes cover exactly the stated dimensions.
    pub open spec fn wf(&self) -> bool {
        self.data_view().len() == self.width_view() * self.height_view() * bpp_of(
            self.format_view(),
        )
    }

    /// The four channel bytes of the pixel at `(x, y)`: a three-byte
    /// pixel is read as fully opaque.
    pub open spec fn pixel_spec(&self, x: int, y: int) -> Seq<u8> {
        let bpp = bpp_of(self.format_view());
        let off = (y * self.width_view() + x) * bpp;
        if bpp == 4 {
            seq![
                self.data_view()[off],
                self.data_view()[off + 1],
                self.data_view()[off + 2],
                self.data_view()[off + 3],
            ]
        } else {
            seq![
                self.data_view()[off],
                self.data_view()[off + 1],
                self.data_view()[off + 2],
                255u8,
            ]
        }
    }

    /// Wrap pixel bytes whose length covers the stated dimensions.
    pub fn new(data: Vec<u8>, width: u32, height: u32, format: PixelFormat) -> (r: Image)
        requires
            data@.len() == width * height * bpp_of(format),
        ensures
            r.wf(),
            r.data_view() == data@,
            r.width_view() == width,
            r.height_view() == height,
            r.format_view() == format,
    {
        Image { data, width, height, format }
    }

    /// The width in pixels.
    pub fn weight(&self) -> (r: u32)
        ensures
            r == self.width_view(),
    {
        self.width
    }

    /// The height in pixels.
    pub fn height(&self) -> (r: u32)
        ensures
            r == self.height_view(),
    {
        self.height
    }

    /// How many bytes one pixel occupies.
    pub fn bytes_per_pixel(&self) -> (r: usize)
        ensures
            r == bpp_of(self.format_view()),
    {
        match self.format {
            PixelFormat::RGB24 | PixelFormat::BGR24 => 3,
            PixelFormat::RGBA32 | PixelFormat::BGRA32 => 4,
            PixelFormat::RGBF => 12,
            PixelFormat::RGBAF => 16,
        }
    }

    /// The four channel bytes of the pixel at `(x, y)`, for the
    /// byte-per-channel layouts.
    pub fn get_pixel(&self, x: u32, y: u32) -> (r: [u8; 4])
        requires
            self.wf(),
            x < self.width_view(),
            y < self.height_view(),
            bpp_of(self.format_view()) == 3 || bpp_of(self.format_view()) == 4,
        ensures
            r@ == self.pixel_spec(x as int, y as int),
    {
        let bpp = self.bytes_per_pixel();
        proof {
            assert((y * self.width_view() + x) * bpp_of(self.format_view()) + bpp_of(
                self.format_view(),
            ) <= self.width_view() * self.height_view() * bpp_of(self.format_view()))
                by (nonlinear_arith)
                requires
                    0 <= x < self.width_view(),
                    0 <= y < self.height_view(),
                    3 <= bpp_of(self.format_view()) <= 4,
            ;
            assert(0 <= y * self.width_view() + x <= (y * self.width_view() + x) * bpp_of(
                self.format_view(),
            )) by (nonlinear_arith)
                requires
                    0 <= x,
                    0 <= y,
                    3 <= bpp_of(self.format_view()) <= 4,
            ;
        }
        let dlen = self.data.len();
        assert(y * self.width_view() + x <= dlen && (y * self.width_view() + x) * bpp_of(
            self.format_view(),
        ) <= dlen);
        let offset = ((y as usize) * (self.width as usize) + (x as usize)) * bpp;
        let r: [u8; 4] = if bpp == 4 {
            [
                self.data[offset],
                self.data[offset + 1],
                self.data[offset + 2],
                self.data[offset + 3],
            ]
        } else {
            [self.data[offset], self.data[offset + 1], self.data[offset + 2], 255]
        };
        assert(r@ =~= self.pixel_spec(x as int, y as int));
        r
    }
}

/// What a scan of an image may leave out.
pub struct ImageParseOptions {
    pub skip_transparent: bool,
}

/// The hexadecimal digit character for `d`.
pub open spec fn hex_char(d: int) -> char {
    if d == 0 {
        '0'
    } else if d == 1 {
        '1'
    } else if d == 2 {
        '2'
    } else if d == 3 {
        '3'
    } else if d == 4 {
        '4'
    } else if d == 5 {
        '5'
    } else if d == 6 {
        '6'
    } else if d == 7 {
        '7'
    } else if d == 8 {
        '8'
    } else if d == 9 {
        '9'
    } else if d == 10 {
        'a'
    } else if d == 11 {
        'b'
    } else if d == 12 {
        'c'
    } else if d == 13 {
        'd'
    } else if d == 14 {
        'e'
    } else {
        'f'
    }
}

/// The hex text of the bytes of `c` from index `i` on: two digits per
/// byte, or only the low digit of each when `shorten` holds.
pub open spec fn hex_cells(c: Seq<u8>, i: int, shorten: bool) -> Seq<char>
    decreases c.len() - i,
{
    if i < 0 || i >= c.len() {
        Seq::<char>::empty()
    } else {
        let b = c[i];
        let digits = if shorten {
            seq![hex_char(b as int % 16)]
        } else {
            seq![hex_char(b as int / 16), hex_char(b as int % 16)]
        };
        digits + hex_cells(c, i + 1, shorten)
    }
}

/// The channel bytes a color code is taken over: a fully opaque alpha
/// byte is dropped.
pub open spec fn hex_source(arr: Seq<u8>) -> Seq<u8> {
    if arr.len() == 4 && arr[3] == 255 {
        arr.subrange(0, 3)
    } else {
        arr
    }
}

/// Every byte repeats its low digit in its high digit, so the short
/// one-digit form loses nothing.
pub open spec fn hex_shortenable(c: Seq<u8>) -> bool {
    forall|i: int| 0 <= i < c.len() ==> (#[trigger] c[i]) % 17 == 0
}

/// The color code of the channel bytes `arr`: their hex text, dropped
/// to one digit per byte when every byte allows it.
pub open spec fn hex_of(arr: Seq<u8>) -> Seq<char> {
    let c = hex_source(arr);
    hex_cells(c, 0, hex_shortenable(c))
}

/// The one-character text of the hexadecimal digit `d`.
fn hex_char_str(d: u8) -> (r: &'static str)
    requires
        d < 16,
    ensures
        r@ == seq![hex_char(d as int)],
{
    proof {
        reveal_strlit("0");
        reveal_strlit("1");
        reveal_strlit("2");
        reveal_strlit("3");
        reveal_strlit("4");
        reveal_strlit("5");
        reveal_strlit("6");
        reveal_strlit("7");
        reveal_strlit("8");
        reveal_strlit("9");
        reveal_strlit("a");
        reveal_strlit("b");
        reveal_strlit("c");
        reveal_strlit("d");
        reveal_strlit("e");
        reveal_strlit("f");
    }
    let r = match d {
        0 => "0",
        1 => "1",
        2 => "2",
        3 => "3",
        4 => "4",
        5 => "5",
        6 => "6",
        7 => "7",
        8 => "8",
        9 => "9",
        10 => "a",
        11 => "b",
        12 => "c",
        13 => "d",
        14 => "e",
        _ => "f",
    };
    assert(r@ =~= seq![hex_char(d as int)]);
    r
}

/// The color code of the channel bytes `arr`.
#[verifier::loop_isolation(false)]
pub fn to_hex(arr: &[u8]) -> (r: String)
    ensures
        r@ == hex_of(arr@),
{
    let c: &[u8] = if arr.len() == 4 && *vstd::slice::slice_index_get(arr, 3) == 255 {
        vstd::slice::slice_subrange(arr, 0, 3)
    } else {
        arr
    };
    assert(c@ == hex_source(arr@));
    let mut shorten = true;
    let mut i: usize = 0;
    while i < c.len()
        invariant
            0 <= i <= c@.len(),
            shorten == forall|j: int| 0 <= j < i ==> (#[trigger] c@[j]) % 17 == 0,
        decreases c@.len() - i,
    {
        if *vstd::slice::slice_index_get(c, i) % 17 != 0 {
            shorten = false;
            i = i + 1;
            while i < c.len()
                invariant
                    0 <= i <= c@.len(),
                    !hex_shortenable(c@),
                decreases c@.len() - i,
            {
                i = i + 1;
            }
            break ;
        }
        i = i + 1;
    }
    assert(shorten == hex_shortenable(c@));
    let mut out = String::new();
    let mut k: usize = 0;
    while k < c.len()
        invariant
            0 <= k <= c@.len(),
            out@ + hex_cells(c@, k as int, shorten) == hex_cells(c@, 0, shorten),
        decreases c@.len() - k,
    {
        let b = *vstd::slice::slice_index_get(c, k);
        if !shorten {
            out.append(hex_char_str(b / 16));
        }
        out.append(hex_char_str(b % 16));
        proof {
            assert(out@ + hex_cells(c@, k + 1, shorten) =~= hex_cells(c@, 0, shorten));
        }
        k = k + 1;
    }
    assert(hex_cells(c@, c@.len() as int, shorten) == Seq::<char>::empty());
    assert(out@ =~= hex_cells(c@, 0, shorten));
    out
}

/// The color codes of an image, bottom row first: the cell at row `r`
/// and column `x` codes the pixel at `(x, height - 1 - r)`, and is
/// empty where a fully transparent pixel was skipped.
pub open spec fn color_cell(img: &Image, skip_transparent: bool, x: int, y: int) -> Seq<char> {
    let p = img.pixel_spec(x, y);
    if skip_transparent && p[3] == 0 {
        Seq::<char>::empty()
    } else {
        hex_of(p)
    }
}

/// The full color table of an image, bottom row first.
pub open spec fn color_table_spec(img: &Image, skip_transparent: bool) -> Seq<Seq<Seq<char>>> {
    Seq::new(
        img.height_view() as nat,
        |r: int|
            Seq::new(
                img.width_view() as nat,
                |x: int| color_cell(img, skip_transparent, x, img.height_view() - 1 - r),
            ),
    )
}

/// Scan an image into its color table, bottom row first.
#[verifier::loop_isolation(false)]
pub fn to_color_table(img: &Image, options: ImageParseOptions) -> (r: Vec<Vec<String>>)
    requires
        img.wf(),
        bpp_of(img.format_view()) == 3 || bpp_of(img.format_view()) == 4,
    ensures
        r@.len() == img.height_view(),
        forall|row: int, x: int|
            0 <= row < img.height_view() && 0 <= x < img.width_view()
                ==> #[trigger] r@[row]@[x]@ == color_table_spec(img, options.skip_transparent)[row][x],
        forall|row: int| 0 <= row < img.height_view() ==> (#[trigger] r@[row])@.len()
            == img.width_view(),
        table_view(r@) == color_table_spec(img, options.skip_transparent),
{
    let height = img.height();
    let width = img.weight();
    let mut rows: Vec<Vec<String>> = Vec::new();
    let mut ri: u32 = 0;
    while ri < height
        invariant
            0 <= ri <= img.height_view(),
            rows@.len() == ri,
            forall|row: int| 0 <= row < ri ==> (#[trigger] rows@[row])@.len()
                == img.width_view(),
            forall|row: int, x: int|
                0 <= row < ri && 0 <= x < img.width_view() ==> #[trigger] rows@[row]@[x]@
                    == color_cell(img, options.skip_transparent, x, img.height_view() - 1 - row),
        decreases img.height_view() - ri,
    {
        let y = height - 1 - ri;
        let mut row: Vec<String> = Vec::new();
        let mut x: u32 = 0;
        while x < width
            invariant
                0 <= x <= img.width_view(),
                row@.len() == x,
                0 <= y < img.height_view(),
                y == img.height_view() - 1 - ri,
                forall|xx: int| 0 <= xx < x ==> #[trigger] row@[xx]@ == color_cell(
                    img,
                    options.skip_transparent,
                    xx,
                    y as int,
                ),
            decreases img.width_view() - x,
        {
            let pixel = img.get_pixel(x, y);
            if options.skip_transparent && pixel[3] == 0 {
                row.push(String::new());
            } else {
                let hex = to_hex(pixel.as_slice());
                assert(pixel@ == img.pixel_spec(x as int, y as int));
                row.push(hex);
            }
            x = x + 1;
        }
        rows.push(row);
        ri = ri + 1;
    }
    proof {
        assert forall|row: int, x: int|
            0 <= row < img.height_view() && 0 <= x < img.width_view() implies #[trigger] rows@[row]@[x]@
            == color_table_spec(img, options.skip_transparent)[row][x] by {
            assert(rows@[row]@[x]@ == color_cell(
                img,
                options.skip_transparent,
                x,
                img.height_view() - 1 - row,
            ));
        }
        assert(table_view(rows@) =~~= color_table_spec(img, options.skip_transparent));
    }
    rows
}

/// The pairs of the association list `m`, each key and value as its
/// characters, from index `i` on.
pub open spec fn swaps_view_from(m: Seq<(String, String)>, i: int) -> Seq<
    (Seq<char>, Seq<char>),
>
    decreases m.len() - i,
{
    if i < 0 || i >= m.len() {
        Seq::<(Seq<char>, Seq<char>)>::empty()
    } else {
        seq![(m[i].0@, m[i].1@)] + swaps_view_from(m, i + 1)
    }
}

/// The model of swap list `m` is the pairwise model.
pub proof fn lemma_swaps_view_from(m: Seq<(String, String)>, i: int)
    requires
        0 <= i <= m.len(),
    ensures
        swaps_view_from(m, i).len() == m.len() - i,
        forall|j: int| 0 <= j < m.len() - i ==> #[trigger] swaps_view_from(m, i)[j] == (
            m[i + j].0@,
            m[i + j].1@,
        ),
    decreases m.len() - i,
{
    if i < m.len() {
        lemma_swaps_view_from(m, i + 1);
        assert forall|j: int| 0 <= j < m.len() - i implies #[trigger] swaps_view_from(m, i)[j]
            == (m[i + j].0@, m[i + j].1@) by {
            if j > 0 {
                assert(swaps_view_from(m, i)[j] == swaps_view_from(m, i + 1)[j - 1]);
            }
        }
    }
}

/// The color swaps one row dictates, folded left to right over its
/// cells from column `x` on: an empty cell on either side is skipped,
/// and a later binding of a color replaces an earlier one.
pub open spec fn diff_row(
    fr: Seq<Seq<char>>,
    tr: Seq<Seq<char>>,
    x: int,
    m: Seq<(Seq<char>, Seq<char>)>,
) -> Seq<(Seq<char>, Seq<char>)>
    decreases fr.len() - x,
{
    if x < 0 || x >= fr.len() {
        m
    } else {
        let a = fr[x];
        let b = tr[x];
        let m2 = if a.len() == 0 || b.len() == 0 {
            m
        } else {
            crate::asset::reader::assoc_insert(m, a, b)
        };
        diff_row(fr, tr, x + 1, m2)
    }
}

/// The color swaps a whole table dictates, folded row by row from row
/// `y` on.
pub open spec fn diff_rows(
    f: Seq<Seq<Seq<char>>>,
    t: Seq<Seq<Seq<char>>>,
    y: int,
    m: Seq<(Seq<char>, Seq<char>)>,
) -> Seq<(Seq<char>, Seq<char>)>
    decreases f.len() - y,
{
    if y < 0 || y >= f.len() {
        m
    } else {
        diff_rows(f, t, y + 1, diff_row(f[y], t[y], 0, m))
    }
}

/// The color swaps that turn the table `from` into the table `to`.
pub open spec fn diff_spec(f: Seq<Seq<Seq<char>>>, t: Seq<Seq<Seq<char>>>) -> Seq<
    (Seq<char>, Seq<char>),
> {
    diff_rows(f, t, 0, Seq::<(Seq<char>, Seq<char>)>::empty())
}

/// The model of a color table.
pub open spec fn table_view(v: Seq<Vec<String>>) -> Seq<Seq<Seq<char>>> {
    Seq::new(v.len(), |y: int| Seq::new(v[y]@.len(), |x: int| v[y]@[x]@))
}

/// Bind `key` to `value` in `m`: replace the pair that carries the
/// key, or append a new pair.
#[verifier::loop_isolation(false)]
fn insert_swap(m: &mut Vec<(String, String)>, key: String, value: String)
    requires
        crate::asset::reader::assoc_unique(swaps_view_from(old(m)@, 0)),
    ensures
        swaps_view_from(final(m)@, 0) == crate::asset::reader::assoc_insert(
            swaps_view_from(old(m)@, 0),
            key@,
            value@,
        ),
        crate::asset::reader::assoc_unique(swaps_view_from(final(m)@, 0)),
{
    proof {
        crate::asset::reader::lemma_assoc_insert_unique(
            swaps_view_from(old(m)@, 0),
            key@,
            value@,
        );
    }
    let ghost pv = swaps_view_from(old(m)@, 0);
    proof {
        lemma_swaps_view_from(old(m)@, 0);
    }
    let mut j: usize = 0;
    while j < m.len()
        invariant
            0 <= j <= m@.len(),
            m@ == old(m)@,
            forall|jj: int| 0 <= jj < j ==> (#[trigger] pv[jj]).0 != key@,
        decreases m@.len() - j,
    {
        if str_eq_whole(m[j].0.as_str(), key.as_str()) {
            assert(pv[j as int].0 == key@);
            assert(crate::asset::reader::assoc_has(pv, key@));
            m.set(j, (key, value));
            proof {
                lemma_swaps_view_from(m@, 0);
                assert forall|i: int| 0 <= i < pv.len() implies swaps_view_from(m@, 0)[i]
                    == crate::asset::reader::assoc_insert(pv, key@, value@)[i] by {
                    if i != j {
                        assert(pv[i].0 != key@);
                    }
                }
                assert(swaps_view_from(m@, 0) =~= crate::asset::reader::assoc_insert(
                    pv,
                    key@,
                    value@,
                ));
            }
            return ;
        }
        j = j + 1;
    }
    assert(!crate::asset::reader::assoc_has(pv, key@));
    m.push((key, value));
    proof {
        lemma_swaps_view_from(m@, 0);
        assert(swaps_view_from(m@, 0) =~= crate::asset::reader::assoc_insert(pv, key@, value@));
    }
}

/// The color swaps that turn the table `from` into the table `to`,
/// cell by cell in reading order.
#[verifier::loop_isolation(false)]
pub fn diffrent(from: Vec<Vec<String>>, to: Vec<Vec<String>>) -> (r: Vec<(String, String)>)
    requires
        to@.len() >= from@.len(),
        forall|y: int| 0 <= y < from@.len() ==> (#[trigger] to@[y])@.len() >= from@[y]@.len(),
    ensures
        swaps_view_from(r@, 0) == diff_spec(table_view(from@), table_view(to@)),
{
    let ghost f = table_view(from@);
    let ghost t = table_view(to@);
    let mut swaps: Vec<(String, String)> = Vec::new();
    proof {
        lemma_swaps_view_from(swaps@, 0);
        assert(swaps_view_from(swaps@, 0) =~= Seq::<(Seq<char>, Seq<char>)>::empty());
    }
    let mut y: usize = 0;
    while y < from.len()
        invariant
            0 <= y <= from@.len(),
            crate::asset::reader::assoc_unique(swaps_view_from(swaps@, 0)),
            diff_rows(f, t, y as int, swaps_view_from(swaps@, 0)) == diff_spec(f, t),
        decreases from@.len() - y,
    {
        let frow = &from[y];
        let trow = &to[y];
        let ghost fr = f[y as int];
        let ghost tr = t[y as int];
        let ghost sw0 = swaps_view_from(swaps@, 0);
        let mut x: usize = 0;
        while x < frow.len()
            invariant
                0 <= x <= frow@.len(),
                fr == f[y as int],
                tr == t[y as int],
                0 <= y < from@.len(),
                fr.len() == frow@.len(),
                tr.len() == trow@.len(),
                trow@.len() >= frow@.len(),
                forall|xx: int| 0 <= xx < frow@.len() ==> #[trigger] fr[xx] == frow@[xx]@,
                forall|xx: int| 0 <= xx < trow@.len() ==> #[trigger] tr[xx] == trow@[xx]@,
                crate::asset::reader::assoc_unique(swaps_view_from(swaps@, 0)),
                diff_row(fr, tr, x as int, swaps_view_from(swaps@, 0)) == diff_row(fr, tr, 0, sw0),
            decreases frow@.len() - x,
        {
            let a = &frow[x];
            let b = &trow[x];
            if !(a.as_str().is_empty() || b.as_str().is_empty()) {
                insert_swap(&mut swaps, a.clone(), b.clone());
            }
            x = x + 1;
        }
        proof {
            assert(diff_row(fr, tr, frow@.len() as int, swaps_view_from(swaps@, 0))
                == swaps_view_from(swaps@, 0));
            assert(diff_rows(f, t, y as int, sw0) == diff_rows(
                f,
                t,
                y + 1,
                swaps_view_from(swaps@, 0),
            ));
        }
        y = y + 1;
    }
    assert(diff_rows(f, t, from@.len() as int, swaps_view_from(swaps@, 0)) == swaps_view_from(
        swaps@,
        0,
    ));
    swaps
}

/// Two string slices are equal exactly when their characters are.
fn str_eq_whole(a: &str, b: &str) -> (r: bool)
    ensures
        r == (a@ == b@),
{
    let sa = a.to_owned();
    let sb = b.to_owned();
    sa.eq(&sb)
}

} // verus!
