use vstd::prelude::*;
use vstd::string::StringExecFns;

use crate::directives::{replace_spec, to_replace};
use crate::image::{
    bpp_of, color_table_spec, diff_spec, diffrent, table_view, to_color_table, Image,
    ImageParseOptions,
};
use crate::template::{create, is_hex_byte_text, template_spec};

verus! {

/// The fixed directive prefix when the body stays visible.
pub const PANTS_DIRECTIVES: &'static str = "?scale=0.4?scale=0.7?crop;6;2;7;3?replace;a0b03e=ffa1ff00;7e9b35=ffa2ff00;45483887=ffa3ff00;698635ef=ffa4ff00;405e2fe4=ffa5ff00;51362dc0=ffa6ff00;59353091=ffa7ff00;7c9036=ffb1ff00;6d702af4=ffb2ff00;91a638=ffb3ff00;748e37=ffb4ff00;746f2c=ffb5ff00;7a8a31=ffb6ff00;608333=ffb7ff00;8f953a=ffb8ff00;736f2f=ffc1ff00;41373b5d=ffc2ff00;515f38ab=ffc3ff00;788e35=ffc4ff00;6f602f=ffc5ff00;273430ab=ffc6ff00;617e34=ffc7ff00;829935=ffc8ff00;2d173b2e=ffd1ff00;2b243668=ffd2ff00;725830c0=ffd3ff00;7b4d31ca=ffd4ff00;663c2dab=ffd5ff00;5735376d=ffd6ff00;5d3a3877=ffd7ff00;52403496=ffd8ff00;55662dd5=ffe1ff00;8088318c=ffe2ff00;778c34=ffe3ff00;8c7835a1=ffe4ff00;668c3487=ffe5ff00?scalenearest=1;2?blendmult=/monsters/boss/apeboss/apeboss.png;1263;394?scalenearest=2;1?blendmult=/dungeons/other/wreck/key.png;755;29?multiply=2eff2e?scale=47?crop;1;1;44;44";

/// The fixed directive prefix when the body is hidden.
pub const PANTS_HIDE_BODY_DIRECTIVES: &'static str = "?scale=0.4?scale=0.7?scale=0.85?crop;6;1;7;2?replace;45572af4=ffa1ff00;4e6530f8=ffa2ff00;4f6631f7=ffa3ff00;445729f7=ffa4ff00;4f6531f5=ffa5ff00;487035fc=ffa6ff00;445e2df8=ffa7ff00;556733f4=ffb1ff00;4a4122f6=ffb2ff00;425929f0=ffb3ff00;3e2f1cb7=ffb4ff00;664d39bb=ffb5ff00;425b2df2=ffb6ff00;54201e7f=ffb7ff00;56322780=ffb8ff00;675831bb=ffc1ff00;5916192a=ffc2ff00;463c20c0=ffc3ff00;36311bb7=ffc4ff00;313c1ebb=ffc5ff00;561b1a29=ffc6ff00;38642bf4=ffc7ff00;60493180=ffc8ff00;415128bb=ffd1ff00;47562ab9=ffd2ff00;4939207f=ffd3ff00;4f432681=ffd4ff00;5a1e1b25=ffd5ff00;5a1e1c25=ffd6ff00;571a1a25=ffd7ff00;62212413=ffd8ff00;29452424=ffe1ff00;96918a25=ffe2ff00;4567347f=ffe3ff00;5a755681=ffe4ff00;427235f3=ffe5ff00?scalenearest=1;2?blendmult=/monsters/boss/apeboss/apeboss.png;1263;394?scalenearest=2;1?blendmult=/dungeons/other/wreck/key.png;755;29?multiply=2eff2e?scale=47?crop;1;1;44;44";

/// The frame grid of the pants template sheet.
pub open spec fn pants_frames() -> Seq<Seq<Seq<char>>> {
    seq![
        seq![Seq::<char>::empty(), "a1"@, "a2"@, "a3"@, "a4"@, "a5"@, "a6"@, Seq::<char>::empty(), "a7"@],
        seq![Seq::<char>::empty(), "b1"@, "b2"@, "b3"@, "b4"@, "b5"@, "b6"@, "b7"@, "b8"@],
        seq![Seq::<char>::empty(), "c1"@, "c2"@, "c3"@, "c4"@, "c5"@, "c6"@, "c7"@, "c8"@],
        seq![Seq::<char>::empty(), "d1"@, "d2"@, "d3"@, "d4"@, "d5"@, "d6"@, "d7"@, "d8"@],
        seq![Seq::<char>::empty(), Seq::<char>::empty(), Seq::<char>::empty(), Seq::<char>::empty(), Seq::<char>::empty(), Seq::<char>::empty(), Seq::<char>::empty(), Seq::<char>::empty(), Seq::<char>::empty()],
        seq![Seq::<char>::empty(), "e1"@, Seq::<char>::empty(), Seq::<char>::empty(), "e2"@, "e3"@, "e4"@, "e5"@, Seq::<char>::empty()],
    ]
}

/// The frame grid, built cell by cell.
#[verifier::loop_isolation(false)]
#[verifier::rlimit(100)]
fn build_pants_frames() -> (r: Vec<Vec<String>>)
    ensures
        table_view(r@) == pants_frames(),
        r@.len() == 6,
        forall|i: int| 0 <= i < r@.len() ==> (#[trigger] r@[i])@.len() == 9,
        forall|i: int, j: int|
            0 <= i < r@.len() && 0 <= j < 9 && ((#[trigger] r@[i]@[j])@).len() != 0
                ==> is_hex_byte_text(r@[i]@[j]@),
{
    let mut rows: Vec<Vec<String>> = Vec::new();
    let mut row: Vec<String> = Vec::new();
    row.push(String::new());
    row.push("a1".to_owned());
    row.push("a2".to_owned());
    row.push("a3".to_owned());
    row.push("a4".to_owned());
    row.push("a5".to_owned());
    row.push("a6".to_owned());
    row.push(String::new());
    row.push("a7".to_owned());
    rows.push(row);
    let mut row: Vec<String> = Vec::new();
    row.push(String::new());
    row.push("b1".to_owned());
    row.push("b2".to_owned());
    row.push("b3".to_owned());
    row.push("b4".to_owned());
    row.push("b5".to_owned());
    row.push("b6".to_owned());
    row.push("b7".to_owned());
    row.push("b8".to_owned());
    rows.push(row);
    let mut row: Vec<String> = Vec::new();
    row.push(String::new());
    row.push("c1".to_owned());
    row.push("c2".to_owned());
    row.push("c3".to_owned());
    row.push("c4".to_owned());
    row.push("c5".to_owned());
    row.push("c6".to_owned());
    row.push("c7".to_owned());
    row.push("c8".to_owned());
    rows.push(row);
    let mut row: Vec<String> = Vec::new();
    row.push(String::new());
    row.push("d1".to_owned());
    row.push("d2".to_owned());
    row.push("d3".to_owned());
    row.push("d4".to_owned());
    row.push("d5".to_owned());
    row.push("d6".to_owned());
    row.push("d7".to_owned());
    row.push("d8".to_owned());
    rows.push(row);
    let mut row: Vec<String> = Vec::new();
    row.push(String::new());
    row.push(String::new());
    row.push(String::new());
    row.push(String::new());
    row.push(String::new());
    row.push(String::new());
    row.push(String::new());
    row.push(String::new());
    row.push(String::new());
    rows.push(row);
    let mut row: Vec<String> = Vec::new();
    row.push(String::new());
    row.push("e1".to_owned());
    row.push(String::new());
    row.push(String::new());
    row.push("e2".to_owned());
    row.push("e3".to_owned());
    row.push("e4".to_owned());
    row.push("e5".to_owned());
    row.push(String::new());
    rows.push(row);
    proof {
        reveal_strlit("a1");
        reveal_strlit("a2");
        reveal_strlit("a3");
        reveal_strlit("a4");
        reveal_strlit("a5");
        reveal_strlit("a6");
        reveal_strlit("a7");
        reveal_strlit("b1");
        reveal_strlit("b2");
        reveal_strlit("b3");
        reveal_strlit("b4");
        reveal_strlit("b5");
        reveal_strlit("b6");
        reveal_strlit("b7");
        reveal_strlit("b8");
        reveal_strlit("c1");
        reveal_strlit("c2");
        reveal_strlit("c3");
        reveal_strlit("c4");
        reveal_strlit("c5");
        reveal_strlit("c6");
        reveal_strlit("c7");
        reveal_strlit("c8");
        reveal_strlit("d1");
        reveal_strlit("d2");
        reveal_strlit("d3");
        reveal_strlit("d4");
        reveal_strlit("d5");
        reveal_strlit("d6");
        reveal_strlit("d7");
        reveal_strlit("d8");
        reveal_strlit("e1");
        reveal_strlit("e2");
        reveal_strlit("e3");
        reveal_strlit("e4");
        reveal_strlit("e5");
        assert(table_view(rows@) =~~= pants_frames());
        assert forall|i: int, j: int|
            0 <= i < rows@.len() && 0 <= j < 9 && ((#[trigger] rows@[i]@[j])@).len() != 0
                implies is_hex_byte_text(rows@[i]@[j]@) by {
            assert(table_view(rows@)[i][j] == rows@[i]@[j]@);
        }
    }
    rows
}

/// The whole directive string for a pants image: the prefix the
/// `hide_body` choice picks, then the replace directive that recolors
/// the template sheet into the image's colors.
pub open spec fn generate_pants_spec(img: &Image, hide_body: bool) -> Seq<char> {
    (if hide_body {
        PANTS_HIDE_BODY_DIRECTIVES@
    } else {
        PANTS_DIRECTIVES@
    }) + replace_spec(
        diff_spec(template_spec(43, 43, pants_frames()), color_table_spec(img, true)),
        false,
    )
}

/// Generate the recoloring directives that paint a pants image over
/// the template sheet.
pub fn generate_pants(img: &Image, hide_body: bool) -> (r: String)
    requires
        img.wf(),
        bpp_of(img.format_view()) == 3 || bpp_of(img.format_view()) == 4,
        img.height_view() >= 6 * 43,
        img.width_view() >= 9 * 43,
    ensures
        r@ == generate_pants_spec(img, hide_body),
{
    let color_table = to_color_table(img, ImageParseOptions { skip_transparent: true });
    let frames = build_pants_frames();
    let template_table = create(43, 43, frames);
    proof {
        assert(table_view(template_table@).len() == 6 * 43);
        assert(template_table@.len() == table_view(template_table@).len());
        assert forall|y: int| 0 <= y < template_table@.len() implies (
        #[trigger] template_table@[y])@.len() <= color_table@[y]@.len() by {
            assert(table_view(template_table@)[y].len() == 9 * 43);
        }
    }
    let swaps = diffrent(template_table, color_table);
    let directive = to_replace(&swaps, false);
    let mut out = if hide_body {
        PANTS_HIDE_BODY_DIRECTIVES.to_owned()
    } else {
        PANTS_DIRECTIVES.to_owned()
    };
    out.append(directive.as_str());
    proof {
        assert(table_view(color_table@) == color_table_spec(img, true));
    }
    out
}

} // verus!
