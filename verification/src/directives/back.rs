use vstd::prelude::*;
use vstd::string::StringExecFns;

use crate::directives::{replace_spec, to_replace};
use crate::image::{
    bpp_of, color_table_spec, diff_spec, diffrent, table_view, to_color_table, Image,
    ImageParseOptions,
};
use crate::template::{create, is_hex_byte_text, template_spec};

verus! {

/// The fixed directive prefix this generator starts from.
pub const BACK_DIRECTIVES: &'static str = "?scale=0.4?scale=0.7?scale=0.84?crop;4;2;5;3?replace;aa836459=ffa1ff00;bb885e4e=ffa2ff00;cb926431=ffa3ff00;cb95693b=ffa4ff00;cf91601c=ffa5ff00;ce966b4b=ffa6ff00;e6c2a50c=ffa7ff00;cc93662e=ffb1ff00;cc8c5921=ffb2ff00;c1895c3d=ffb3ff00;bf885c41=ffb4ff00;cb8e5d2d=ffb5ff00;c7895728=ffb6ff00;ac7c5558=ffb7ff00;b8a99d5d=ffb8ff00;d796610f=ffc1ff00;dc955b0a=ffc2ff00;de965b06=ffc3ff00;c3885730=ffc4ff00;d9945b0d=ffc5ff00;dc955b08=ffc6ff00;da945b0a=ffc7ff00;dfbca11e=ffc8ff00;ce8e5b23=ffd1ff00;dc945b06=ffd2ff00;cf8f5b23=ffd3ff00;9d74526f=ffd4ff00;d28f5916=ffd5ff00;de965b02=ffd6ff00;e0975c00=ffd7ff00;ecc3a200=ffd8ff00;d08f5b1e=ffe1ff00;da945b08=ffe2ff00;cd905f2f=ffe3ff00;d8955e14=ffe4ff00;cc8d5920=ffe5ff00;59504932=fff1ff00;655c5509=fff2ff00;7369631b=fff3ff00;756c665a=fff4ff00;62574f32=fff5ff00;877d7782=fff6ff00;63595277=fff7ff00;a19d9959=fff8ff00?scalenearest=1;2?blendmult=/monsters/boss/apeboss/apeboss.png;1263;394?scalenearest=2;1?blendmult=/dungeons/other/wreck/key.png;755;29?multiply=2eff2e?scale=47?crop;1;1;44;44";

/// The frame grid of the back-item template sheet.
pub open spec fn back_frames() -> Seq<Seq<Seq<char>>> {
    seq![
        seq![Seq::<char>::empty(), "a1"@, "a2"@, "a3"@, "a4"@, "a5"@, "a6"@, Seq::<char>::empty(), "a7"@],
        seq![Seq::<char>::empty(), "b1"@, "b2"@, "b3"@, "b4"@, "b5"@, "b6"@, "b7"@, "b8"@],
        seq![Seq::<char>::empty(), "c1"@, "c2"@, "c3"@, "c4"@, "c5"@, "c6"@, "c7"@, "c8"@],
        seq![Seq::<char>::empty(), "d1"@, "d2"@, "d3"@, "d4"@, "d5"@, "d6"@, "d7"@, "d8"@],
        seq![Seq::<char>::empty(), Seq::<char>::empty(), Seq::<char>::empty(), Seq::<char>::empty(), Seq::<char>::empty(), Seq::<char>::empty(), Seq::<char>::empty(), Seq::<char>::empty(), Seq::<char>::empty()],
        seq![Seq::<char>::empty(), "e1"@, Seq::<char>::empty(), Seq::<char>::empty(), "e2"@, "e3"@, "e4"@, "e5"@, Seq::<char>::empty()],
        seq![Seq::<char>::empty(), "f1"@, "f2"@, "f3"@, "f4"@, "f5"@, "f6"@, "f7"@, "f8"@],
    ]
}

/// The frame grid, built cell by cell.
#[verifier::loop_isolation(false)]
#[verifier::rlimit(100)]
fn build_back_frames() -> (r: Vec<Vec<String>>)
    ensures
        table_view(r@) == back_frames(),
        r@.len() == 7,
        forall|i: int| 0 <= i < r@.len() ==> (#[trigger] r@[i])@.len() == 9,
        forall|i: int, j: int|
            0 <= i < r@.len() && 0 <= j < 9 && ((#[trigger] r@[i]@[j])@).len() != 0
                ==> is_hex_byte_text(r@[i]@[j]@),
{
    let mut rows: Vec<Vec<String>> = Vec::new();
    let mut row: Vec<String> = Vec::new();
    row.push(String::new());
    row.push("a1".to_owned());
    row.push("a2".to_owned());
    row.push("a3".to_owned());
    row.push("a4".to_owned());
    row.push("a5".to_owned());
    row.push("a6".to_owned());
    row.push(String::new());
    row.push("a7".to_owned());
    rows.push(row);
    let mut row: Vec<String> = Vec::new();
    row.push(String::new());
    row.push("b1".to_owned());
    row.push("b2".to_owned());
    row.push("b3".to_owned());
    row.push("b4".to_owned());
    row.push("b5".to_owned());
    row.push("b6".to_owned());
    row.push("b7".to_owned());
    row.push("b8".to_owned());
    rows.push(row);
    let mut row: Vec<String> = Vec::new();
    row.push(String::new());
    row.push("c1".to_owned());
    row.push("c2".to_owned());
    row.push("c3".to_owned());
    row.push("c4".to_owned());
    row.push("c5".to_owned());
    row.push("c6".to_owned());
    row.push("c7".to_owned());
    row.push("c8".to_owned());
    rows.push(row);
    let mut row: Vec<String> = Vec::new();
    row.push(String::new());
    row.push("d1".to_owned());
    row.push("d2".to_owned());
    row.push("d3".to_owned());
    row.push("d4".to_owned());
    row.push("d5".to_owned());
    row.push("d6".to_owned());
    row.push("d7".to_owned());
    row.push("d8".to_owned());
    rows.push(row);
    let mut row: Vec<String> = Vec::new();
    row.push(String::new());
    row.push(String::new());
    row.push(String::new());
    row.push(String::new());
    row.push(String::new());
    row.push(String::new());
    row.push(String::new());
    row.push(String::new());
    row.push(String::new());
    rows.push(row);
    let mut row: Vec<String> = Vec::new();
    row.push(String::new());
    row.push("e1".to_owned());
    row.push(String::new());
    row.push(String::new());
    row.push("e2".to_owned());
    row.push("e3".to_owned());
    row.push("e4".to_owned());
    row.push("e5".to_owned());
    row.push(String::new());
    rows.push(row);
    let mut row: Vec<String> = Vec::new();
    row.push(String::new());
    row.push("f1".to_owned());
    row.push("f2".to_owned());
    row.push("f3".to_owned());
    row.push("f4".to_owned());
    row.push("f5".to_owned());
    row.push("f6".to_owned());
    row.push("f7".to_owned());
    row.push("f8".to_owned());
    rows.push(row);
    proof {
        reveal_strlit("a1");
        reveal_strlit("a2");
        reveal_strlit("a3");
        reveal_strlit("a4");
        reveal_strlit("a5");
        reveal_strlit("a6");
        reveal_strlit("a7");
        reveal_strlit("b1");
        reveal_strlit("b2");
        reveal_strlit("b3");
        reveal_strlit("b4");
        reveal_strlit("b5");
        reveal_strlit("b6");
        reveal_strlit("b7");
        reveal_strlit("b8");
        reveal_strlit("c1");
        reveal_strlit("c2");
        reveal_strlit("c3");
        reveal_strlit("c4");
        reveal_strlit("c5");
        reveal_strlit("c6");
        reveal_strlit("c7");
        reveal_strlit("c8");
        reveal_strlit("d1");
        reveal_strlit("d2");
        reveal_strlit("d3");
        reveal_strlit("d4");
        reveal_strlit("d5");
        reveal_strlit("d6");
        reveal_strlit("d7");
        reveal_strlit("d8");
        reveal_strlit("e1");
        reveal_strlit("e2");
        reveal_strlit("e3");
        reveal_strlit("e4");
        reveal_strlit("e5");
        reveal_strlit("f1");
        reveal_strlit("f2");
        reveal_strlit("f3");
        reveal_strlit("f4");
        reveal_strlit("f5");
        reveal_strlit("f6");
        reveal_strlit("f7");
        reveal_strlit("f8");
        assert(table_view(rows@) =~~= back_frames());
        assert forall|i: int, j: int|
            0 <= i < rows@.len() && 0 <= j < 9 && ((#[trigger] rows@[i]@[j])@).len() != 0
                implies is_hex_byte_text(rows@[i]@[j]@) by {
            assert(table_view(rows@)[i][j] == rows@[i]@[j]@);
        }
    }
    rows
}

/// The whole directive string for one image: the fixed prefix, then
/// the replace directive that recolors the template sheet into the
/// image's colors.
pub open spec fn generate_spec(img: &Image) -> Seq<char> {
    BACK_DIRECTIVES@ + replace_spec(
        diff_spec(template_spec(43, 43, back_frames()), color_table_spec(img, true)),
        false,
    )
}

/// Generate the recoloring directives that paint a back-item image over the template sheet.
pub fn generate(img: &Image) -> (r: String)
    requires
        img.wf(),
        bpp_of(img.format_view()) == 3 || bpp_of(img.format_view()) == 4,
        img.height_view() >= 301,
        img.width_view() >= 387,
    ensures
        r@ == generate_spec(img),
{
    let color_table = to_color_table(img, ImageParseOptions { skip_transparent: true });
    let frames = build_back_frames();
    let template_table = create(43, 43, frames);
    proof {
        assert(table_view(template_table@).len() == 7 * 43);
        assert(template_table@.len() == table_view(template_table@).len());
        assert forall|y: int| 0 <= y < template_table@.len() implies (
        #[trigger] template_table@[y])@.len() <= color_table@[y]@.len() by {
            assert(table_view(template_table@)[y].len() == 9 * 43);
        }
    }
    let swaps = diffrent(template_table, color_table);
    let mut out = BACK_DIRECTIVES.to_owned();
    let directive = to_replace(&swaps, false);
    out.append(directive.as_str());
    proof {
        assert(table_view(color_table@) == color_table_spec(img, true));
    }
    out
}

} // verus!
