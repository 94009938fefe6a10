use vstd::prelude::*;
use vstd::string::StringExecFns;

use crate::directives::{replace_spec, to_replace};
use crate::image::{
    bpp_of, color_table_spec, diff_spec, diffrent, table_view, to_color_table, Image,
    ImageParseOptions,
};
use crate::template::{create, is_hex_byte_text, template_spec};

verus! {

/// The fixed directive prefix this generator starts from.
pub const CHEST_DIRECTIVES: &'static str = "?scale=0.4?scale=0.7?scale=0.85?scale=0.925?scale=0.9625?scale=0.8?scale=0.8?crop;3;3;4;4?replace;bdcc640b=ffa1ff;bbc9620f=ffa2ff;bdcd620a=ffa3ff;bccb620d=ffa4ff;bccb630d=ffa5ff;aac05e06=ffa6ff;bfc75d1d=ffb1ff;c8d25f11=ffb2ff;c0c85f1c=ffb3ff;cad65f0b=ffb4ff;cbd96008=ffb5ff;9ba75427=ffb6ff;b1a95b48=ffc1ff;bebe5b2f=ffc2ff;c8d16115=ffc3ff;c9d4600e=ffc4ff;c6ce6015=ffc5ff;bec55e1e=ffd1ff;cad5610c=ffd2ff;c9d5600d=ffd3ff;c6d05d11=ffd4ff;c7d25e10=ffd5ff;c9d16112=ffd6ff;c8d45e0d=ffd7ff;9eb05018=ffd8ff;b7b75f33=ffe1ff;bec25e25=ffe2ff;c4c95c1e=ffe3ff;b5b05840=ffe4ff;c2c85f1e=ffe5ff;bcb85f3b=ffe6ff;a0a9562c=ffe7ff;c8d55e0b=fff1ff;a3b9510b=fff2ff;40432222=ff60ff;a2ab501e=ff61ff;979a4d2f=ff62ff;a2ac501c=ff63ff;a0a9501f=ff64ff;9ead4709=ff65ff;c5cb651d=ff66ff;c5cd631a=ff67ff;c1c46524=ff68ff;bdc45c21=ff69ff;c0c46325=ff6aff;b6b46531=ff6bff;c3c7621e=ff6cff;c4ca621c=ff6dff;bdc45c20=ff6eff;c1c8601e=ff6fff;b8bd5b29=ff70ff;55522f23=ff71ff;b4b15f3b=ff72ff;b8be5b29=ff73ff;b3b25e39=ff74ff;a7a85642=ff75ff;a29f544d=ff76ff;a9ab553d=ff77ff;a0a1523a=ff78ff;53522c20=ff79ff;bcc45c20=ff7aff;b8be5b28=ff7bff;c2c7571f=ff7cff;c7cc651b=ff7dff;b9bd5f2c=ff7eff;bcc25f1b=ff7fff;bcc35b21=ff80ff;bfcc5807=ff81ff;2c221d19=fff3ff;9f853e19=fff4ff;8a8d4812=fff5ff;8c954a02=fff7ff;8c8f4a18=fff6ff;8f8f4f1c=fff8ff;46352a36=fff3ff;85703442=fff4ff;8c834737=fff5ff;8c954a05=fff7ff;988e4f3f=fff6ff;8e864d36=fff8ff?scalenearest=1;2?blendmult=/monsters/boss/apeboss/apeboss.png;1263;394?scalenearest=2;1?blendmult=/dungeons/other/wreck/key.png;755;29?multiply=2eff2e00?scale=47?crop;1;1;44;44";

/// The frame grid of the torso template sheet.
pub open spec fn chest_frames() -> Seq<Seq<Seq<char>>> {
    seq![
        seq![Seq::<char>::empty(), "f3"@],
        seq!["f4"@, "f5"@],
        seq![Seq::<char>::empty(), "f6"@],
        seq![Seq::<char>::empty(), "f7"@],
        seq![Seq::<char>::empty(), Seq::<char>::empty()],
        seq![Seq::<char>::empty(), "f8"@],
    ]
}

/// The frame grid of the front sleeve template sheet.
pub open spec fn front_sleeve_frames() -> Seq<Seq<Seq<char>>> {
    seq![
        seq![Seq::<char>::empty(), "a1"@, "a2"@, "a3"@, "a4"@, "a5"@, Seq::<char>::empty(), Seq::<char>::empty(), "a6"@],
        seq![Seq::<char>::empty(), Seq::<char>::empty(), "b1"@, "b2"@, "b3"@, "b4"@, "b5"@, Seq::<char>::empty(), "b6"@],
        seq![Seq::<char>::empty(), Seq::<char>::empty(), "c1"@, "c2"@, "c3"@, "c4"@, "c5"@, Seq::<char>::empty(), Seq::<char>::empty()],
        seq![Seq::<char>::empty(), "d1"@, "d2"@, "d3"@, "d4"@, "d5"@, "d6"@, "d7"@, "d8"@],
        seq![Seq::<char>::empty(), Seq::<char>::empty(), Seq::<char>::empty(), Seq::<char>::empty(), Seq::<char>::empty(), Seq::<char>::empty(), Seq::<char>::empty(), Seq::<char>::empty(), Seq::<char>::empty()],
        seq![Seq::<char>::empty(), "e1"@, "e2"@, Seq::<char>::empty(), "e3"@, "e4"@, "e5"@, "e6"@, "e7"@],
        seq![Seq::<char>::empty(), Seq::<char>::empty(), Seq::<char>::empty(), "f1"@, Seq::<char>::empty(), Seq::<char>::empty(), Seq::<char>::empty(), Seq::<char>::empty(), "f2"@],
    ]
}

/// The frame grid of the back sleeve template sheet.
pub open spec fn back_sleeve_frames() -> Seq<Seq<Seq<char>>> {
    seq![
        seq![Seq::<char>::empty(), "60"@, "61"@, "62"@, "63"@, "64"@, Seq::<char>::empty(), Seq::<char>::empty(), "65"@],
        seq![Seq::<char>::empty(), Seq::<char>::empty(), "66"@, "67"@, "68"@, "69"@, "6a"@, Seq::<char>::empty(), "6b"@],
        seq![Seq::<char>::empty(), Seq::<char>::empty(), "6c"@, "6d"@, "6e"@, "6f"@, "70"@, Seq::<char>::empty(), Seq::<char>::empty()],
        seq![Seq::<char>::empty(), "71"@, "72"@, "73"@, "74"@, "75"@, "76"@, "77"@, "78"@],
        seq![Seq::<char>::empty(), Seq::<char>::empty(), Seq::<char>::empty(), Seq::<char>::empty(), Seq::<char>::empty(), Seq::<char>::empty(), Seq::<char>::empty(), Seq::<char>::empty(), Seq::<char>::empty()],
        seq![Seq::<char>::empty(), "79"@, "7a"@, Seq::<char>::empty(), "7b"@, "7c"@, "7d"@, "7e"@, "7f"@],
        seq![Seq::<char>::empty(), Seq::<char>::empty(), Seq::<char>::empty(), "80"@, Seq::<char>::empty(), Seq::<char>::empty(), Seq::<char>::empty(), Seq::<char>::empty(), "81"@],
    ]
}

/// The frame grid, built cell by cell.
#[verifier::loop_isolation(false)]
#[verifier::rlimit(100)]
fn build_chest_frames() -> (r: Vec<Vec<String>>)
    ensures
        table_view(r@) == chest_frames(),
        r@.len() == 6,
        forall|i: int| 0 <= i < r@.len() ==> (#[trigger] r@[i])@.len() == 2,
        forall|i: int, j: int|
            0 <= i < r@.len() && 0 <= j < 2 && ((#[trigger] r@[i]@[j])@).len() != 0
                ==> is_hex_byte_text(r@[i]@[j]@),
{
    let mut rows: Vec<Vec<String>> = Vec::new();
    let mut row: Vec<String> = Vec::new();
    row.push(String::new());
    row.push("f3".to_owned());
    rows.push(row);
    let mut row: Vec<String> = Vec::new();
    row.push("f4".to_owned());
    row.push("f5".to_owned());
    rows.push(row);
    let mut row: Vec<String> = Vec::new();
    row.push(String::new());
    row.push("f6".to_owned());
    rows.push(row);
    let mut row: Vec<String> = Vec::new();
    row.push(String::new());
    row.push("f7".to_owned());
    rows.push(row);
    let mut row: Vec<String> = Vec::new();
    row.push(String::new());
    row.push(String::new());
    rows.push(row);
    let mut row: Vec<String> = Vec::new();
    row.push(String::new());
    row.push("f8".to_owned());
    rows.push(row);
    proof {
        reveal_strlit("f3");
        reveal_strlit("f4");
        reveal_strlit("f5");
        reveal_strlit("f6");
        reveal_strlit("f7");
        reveal_strlit("f8");
        assert(table_view(rows@) =~~= chest_frames());
        assert forall|i: int, j: int|
            0 <= i < rows@.len() && 0 <= j < 2 && ((#[trigger] rows@[i]@[j])@).len() != 0
                implies is_hex_byte_text(rows@[i]@[j]@) by {
            assert(table_view(rows@)[i][j] == rows@[i]@[j]@);
        }
    }
    rows
}

/// The frame grid, built cell by cell.
#[verifier::loop_isolation(false)]
#[verifier::rlimit(100)]
fn build_front_sleeve_frames() -> (r: Vec<Vec<String>>)
    ensures
        table_view(r@) == front_sleeve_frames(),
        r@.len() == 7,
        forall|i: int| 0 <= i < r@.len() ==> (#[trigger] r@[i])@.len() == 9,
        forall|i: int, j: int|
            0 <= i < r@.len() && 0 <= j < 9 && ((#[trigger] r@[i]@[j])@).len() != 0
                ==> is_hex_byte_text(r@[i]@[j]@),
{
    let mut rows: Vec<Vec<String>> = Vec::new();
    let mut row: Vec<String> = Vec::new();
    row.push(String::new());
    row.push("a1".to_owned());
    row.push("a2".to_owned());
    row.push("a3".to_owned());
    row.push("a4".to_owned());
    row.push("a5".to_owned());
    row.push(String::new());
    row.push(String::new());
    row.push("a6".to_owned());
    rows.push(row);
    let mut row: Vec<String> = Vec::new();
    row.push(String::new());
    row.push(String::new());
    row.push("b1".to_owned());
    row.push("b2".to_owned());
    row.push("b3".to_owned());
    row.push("b4".to_owned());
    row.push("b5".to_owned());
    row.push(String::new());
    row.push("b6".to_owned());
    rows.push(row);
    let mut row: Vec<String> = Vec::new();
    row.push(String::new());
    row.push(String::new());
    row.push("c1".to_owned());
    row.push("c2".to_owned());
    row.push("c3".to_owned());
    row.push("c4".to_owned());
    row.push("c5".to_owned());
    row.push(String::new());
    row.push(String::new());
    rows.push(row);
    let mut row: Vec<String> = Vec::new();
    row.push(String::new());
    row.push("d1".to_owned());
    row.push("d2".to_owned());
    row.push("d3".to_owned());
    row.push("d4".to_owned());
    row.push("d5".to_owned());
    row.push("d6".to_owned());
    row.push("d7".to_owned());
    row.push("d8".to_owned());
    rows.push(row);
    let mut row: Vec<String> = Vec::new();
    row.push(String::new());
    row.push(String::new());
    row.push(String::new());
    row.push(String::new());
    row.push(String::new());
    row.push(String::new());
    row.push(String::new());
    row.push(String::new());
    row.push(String::new());
    rows.push(row);
    let mut row: Vec<String> = Vec::new();
    row.push(String::new());
    row.push("e1".to_owned());
    row.push("e2".to_owned());
    row.push(String::new());
    row.push("e3".to_owned());
    row.push("e4".to_owned());
    row.push("e5".to_owned());
    row.push("e6".to_owned());
    row.push("e7".to_owned());
    rows.push(row);
    let mut row: Vec<String> = Vec::new();
    row.push(String::new());
    row.push(String::new());
    row.push(String::new());
    row.push("f1".to_owned());
    row.push(String::new());
    row.push(String::new());
    row.push(String::new());
    row.push(String::new());
    row.push("f2".to_owned());
    rows.push(row);
    proof {
        reveal_strlit("a1");
        reveal_strlit("a2");
        reveal_strlit("a3");
        reveal_strlit("a4");
        reveal_strlit("a5");
        reveal_strlit("a6");
        reveal_strlit("b1");
        reveal_strlit("b2");
        reveal_strlit("b3");
        reveal_strlit("b4");
        reveal_strlit("b5");
        reveal_strlit("b6");
        reveal_strlit("c1");
        reveal_strlit("c2");
        reveal_strlit("c3");
        reveal_strlit("c4");
        reveal_strlit("c5");
        reveal_strlit("d1");
        reveal_strlit("d2");
        reveal_strlit("d3");
        reveal_strlit("d4");
        reveal_strlit("d5");
        reveal_strlit("d6");
        reveal_strlit("d7");
        reveal_strlit("d8");
        reveal_strlit("e1");
        reveal_strlit("e2");
        reveal_strlit("e3");
        reveal_strlit("e4");
        reveal_strlit("e5");
        reveal_strlit("e6");
        reveal_strlit("e7");
        reveal_strlit("f1");
        reveal_strlit("f2");
        assert(table_view(rows@) =~~= front_sleeve_frames());
        assert forall|i: int, j: int|
            0 <= i < rows@.len() && 0 <= j < 9 && ((#[trigger] rows@[i]@[j])@).len() != 0
                implies is_hex_byte_text(rows@[i]@[j]@) by {
            assert(table_view(rows@)[i][j] == rows@[i]@[j]@);
        }
    }
    rows
}

/// The frame grid, built cell by cell.
#[verifier::loop_isolation(false)]
#[verifier::rlimit(100)]
fn build_back_sleeve_frames() -> (r: Vec<Vec<String>>)
    ensures
        table_view(r@) == back_sleeve_frames(),
        r@.len() == 7,
        forall|i: int| 0 <= i < r@.len() ==> (#[trigger] r@[i])@.len() == 9,
        forall|i: int, j: int|
            0 <= i < r@.len() && 0 <= j < 9 && ((#[trigger] r@[i]@[j])@).len() != 0
                ==> is_hex_byte_text(r@[i]@[j]@),
{
    let mut rows: Vec<Vec<String>> = Vec::new();
    let mut row: Vec<String> = Vec::new();
    row.push(String::new());
    row.push("60".to_owned());
    row.push("61".to_owned());
    row.push("62".to_owned());
    row.push("63".to_owned());
    row.push("64".to_owned());
    row.push(String::new());
    row.push(String::new());
    row.push("65".to_owned());
    rows.push(row);
    let mut row: Vec<String> = Vec::new();
    row.push(String::new());
    row.push(String::new());
    row.push("66".to_owned());
    row.push("67".to_owned());
    row.push("68".to_owned());
    row.push("69".to_owned());
    row.push("6a".to_owned());
    row.push(String::new());
    row.push("6b".to_owned());
    rows.push(row);
    let mut row: Vec<String> = Vec::new();
    row.push(String::new());
    row.push(String::new());
    row.push("6c".to_owned());
    row.push("6d".to_owned());
    row.push("6e".to_owned());
    row.push("6f".to_owned());
    row.push("70".to_owned());
    row.push(String::new());
    row.push(String::new());
    rows.push(row);
    let mut row: Vec<String> = Vec::new();
    row.push(String::new());
    row.push("71".to_owned());
    row.push("72".to_owned());
    row.push("73".to_owned());
    row.push("74".to_owned());
    row.push("75".to_owned());
    row.push("76".to_owned());
    row.push("77".to_owned());
    row.push("78".to_owned());
    rows.push(row);
    let mut row: Vec<String> = Vec::new();
    row.push(String::new());
    row.push(String::new());
    row.push(String::new());
    row.push(String::new());
    row.push(String::new());
    row.push(String::new());
    row.push(String::new());
    row.push(String::new());
    row.push(String::new());
    rows.push(row);
    let mut row: Vec<String> = Vec::new();
    row.push(String::new());
    row.push("79".to_owned());
    row.push("7a".to_owned());
    row.push(String::new());
    row.push("7b".to_owned());
    row.push("7c".to_owned());
    row.push("7d".to_owned());
    row.push("7e".to_owned());
    row.push("7f".to_owned());
    rows.push(row);
    let mut row: Vec<String> = Vec::new();
    row.push(String::new());
    row.push(String::new());
    row.push(String::new());
    row.push("80".to_owned());
    row.push(String::new());
    row.push(String::new());
    row.push(String::new());
    row.push(String::new());
    row.push("81".to_owned());
    rows.push(row);
    proof {
        reveal_strlit("60");
        reveal_strlit("61");
        reveal_strlit("62");
        reveal_strlit("63");
        reveal_strlit("64");
        reveal_strlit("65");
        reveal_strlit("66");
        reveal_strlit("67");
        reveal_strlit("68");
        reveal_strlit("69");
        reveal_strlit("6a");
        reveal_strlit("6b");
        reveal_strlit("6c");
        reveal_strlit("6d");
        reveal_strlit("6e");
        reveal_strlit("6f");
        reveal_strlit("70");
        reveal_strlit("71");
        reveal_strlit("72");
        reveal_strlit("73");
        reveal_strlit("74");
        reveal_strlit("75");
        reveal_strlit("76");
        reveal_strlit("77");
        reveal_strlit("78");
        reveal_strlit("79");
        reveal_strlit("7a");
        reveal_strlit("7b");
        reveal_strlit("7c");
        reveal_strlit("7d");
        reveal_strlit("7e");
        reveal_strlit("7f");
        reveal_strlit("80");
        reveal_strlit("81");
        assert(table_view(rows@) =~~= back_sleeve_frames());
        assert forall|i: int, j: int|
            0 <= i < rows@.len() && 0 <= j < 9 && ((#[trigger] rows@[i]@[j])@).len() != 0
                implies is_hex_byte_text(rows@[i]@[j]@) by {
            assert(table_view(rows@)[i][j] == rows@[i]@[j]@);
        }
    }
    rows
}

/// The swaps one garment image dictates against one frame grid.
pub open spec fn piece_swaps(img: &Image, frames: Seq<Seq<Seq<char>>>) -> Seq<
    (Seq<char>, Seq<char>),
> {
    diff_spec(template_spec(43, 43, frames), color_table_spec(img, true))
}

/// The whole directive string for a chest garment: the fixed prefix,
/// the torso's replace directive, then the two sleeves' swap lists
/// with their directive names omitted.
pub open spec fn generate_chest_spec(
    chest_img: &Image,
    front_sleeve_img: &Image,
    back_sleeve_img: &Image,
) -> Seq<char> {
    CHEST_DIRECTIVES@ + replace_spec(piece_swaps(chest_img, chest_frames()), false)
        + replace_spec(piece_swaps(front_sleeve_img, front_sleeve_frames()), true)
        + replace_spec(piece_swaps(back_sleeve_img, back_sleeve_frames()), true)
}

/// Generate the recoloring directives that paint a torso image and two
/// sleeve images over their template sheets.
pub fn generate_chest(
    chest_img: &Image,
    front_sleeve_img: &Image,
    back_sleeve_img: &Image,
) -> (r: String)
    requires
        chest_img.wf(),
        front_sleeve_img.wf(),
        back_sleeve_img.wf(),
        bpp_of(chest_img.format_view()) == 3 || bpp_of(chest_img.format_view()) == 4,
        bpp_of(front_sleeve_img.format_view()) == 3 || bpp_of(front_sleeve_img.format_view())
            == 4,
        bpp_of(back_sleeve_img.format_view()) == 3 || bpp_of(back_sleeve_img.format_view())
            == 4,
        chest_img.height_view() >= 6 * 43,
        chest_img.width_view() >= 2 * 43,
        front_sleeve_img.height_view() >= 7 * 43,
        front_sleeve_img.width_view() >= 9 * 43,
        back_sleeve_img.height_view() >= 7 * 43,
        back_sleeve_img.width_view() >= 9 * 43,
    ensures
        r@ == generate_chest_spec(chest_img, front_sleeve_img, back_sleeve_img),
{
    let color_table = to_color_table(chest_img, ImageParseOptions { skip_transparent: true });
    let frames = build_chest_frames();
    let template_table = create(43, 43, frames);
    proof {
        assert(table_view(template_table@).len() == 6 * 43);
        assert(template_table@.len() == table_view(template_table@).len());
        assert forall|y: int| 0 <= y < template_table@.len() implies (
        #[trigger] template_table@[y])@.len() <= color_table@[y]@.len() by {
            assert(table_view(template_table@)[y].len() == 2 * 43);
        }
    }
    let swaps = diffrent(template_table, color_table);
    let chest_directive = to_replace(&swaps, false);

    let color_table = to_color_table(front_sleeve_img, ImageParseOptions { skip_transparent: true });
    let frames = build_front_sleeve_frames();
    let template_table = create(43, 43, frames);
    proof {
        assert(table_view(template_table@).len() == 7 * 43);
        assert(template_table@.len() == table_view(template_table@).len());
        assert forall|y: int| 0 <= y < template_table@.len() implies (
        #[trigger] template_table@[y])@.len() <= color_table@[y]@.len() by {
            assert(table_view(template_table@)[y].len() == 9 * 43);
        }
    }
    let swaps = diffrent(template_table, color_table);
    let front_directive = to_replace(&swaps, true);

    let color_table = to_color_table(back_sleeve_img, ImageParseOptions { skip_transparent: true });
    let frames = build_back_sleeve_frames();
    let template_table = create(43, 43, frames);
    proof {
        assert(table_view(template_table@).len() == 7 * 43);
        assert(template_table@.len() == table_view(template_table@).len());
        assert forall|y: int| 0 <= y < template_table@.len() implies (
        #[trigger] template_table@[y])@.len() <= color_table@[y]@.len() by {
            assert(table_view(template_table@)[y].len() == 9 * 43);
        }
    }
    let swaps = diffrent(template_table, color_table);
    let back_directive = to_replace(&swaps, true);
    let mut out = CHEST_DIRECTIVES.to_owned();
    out.append(chest_directive.as_str());
    out.append(front_directive.as_str());
    out.append(back_directive.as_str());
    proof {
        assert(out@ =~= generate_chest_spec(chest_img, front_sleeve_img, back_sleeve_img));
    }
    out
}

} // verus!
