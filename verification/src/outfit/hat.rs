use vstd::prelude::*;
use vstd::string::StringExecFns;

use crate::directives::{replace_spec, to_replace};
use crate::image::{
    bpp_of, color_table_spec, diff_spec, diffrent, table_view, to_color_table, Image,
    ImageParseOptions,
};
use crate::template::{create, is_hex_byte_text, template_spec};

verus! {

/// The fixed directive prefix this generator starts from.
pub const HAT_DIRECTIVES: &'static str = "?setcolor=fff?replace;fff0=fff?crop;0;0;2;2?blendmult=/items/active/weapons/protectorate/aegisaltpistol/beamend.png;0;0?replace;a355c0a5=00010000;a355c07b=2b010000;ffffffa5=00012b00;ffffff7b=2b012b00?scale=43;43?crop;0;0;43;43";

/// The frame grid of the hat template sheet: one frame.
pub open spec fn hat_sheet_frames() -> Seq<Seq<Seq<char>>> {
    seq![
        seq!["01"@],
    ]
}

/// The frame grid, built cell by cell.
#[verifier::loop_isolation(false)]
#[verifier::rlimit(100)]
fn build_hat_sheet_frames() -> (r: Vec<Vec<String>>)
    ensures
        table_view(r@) == hat_sheet_frames(),
        r@.len() == 1,
        forall|i: int| 0 <= i < r@.len() ==> (#[trigger] r@[i])@.len() == 1,
        forall|i: int, j: int|
            0 <= i < r@.len() && 0 <= j < 1 && ((#[trigger] r@[i]@[j])@).len() != 0
                ==> is_hex_byte_text(r@[i]@[j]@),
{
    let mut rows: Vec<Vec<String>> = Vec::new();
    let mut row: Vec<String> = Vec::new();
    row.push("01".to_owned());
    rows.push(row);
    proof {
        reveal_strlit("01");
        assert(table_view(rows@) =~~= hat_sheet_frames());
        assert forall|i: int, j: int|
            0 <= i < rows@.len() && 0 <= j < 1 && ((#[trigger] rows@[i]@[j])@).len() != 0
                implies is_hex_byte_text(rows@[i]@[j]@) by {
            assert(table_view(rows@)[i][j] == rows@[i]@[j]@);
        }
    }
    rows
}

/// The whole directive string for one image: the fixed prefix, then
/// the replace directive that recolors the template sheet into the
/// image's colors.
pub open spec fn generate_spec(img: &Image) -> Seq<char> {
    HAT_DIRECTIVES@ + replace_spec(
        diff_spec(template_spec(43, 43, hat_sheet_frames()), color_table_spec(img, true)),
        false,
    )
}

/// Generate the recoloring directives that paint a hat image over the template sheet.
pub fn generate(img: &Image) -> (r: String)
    requires
        img.wf(),
        bpp_of(img.format_view()) == 3 || bpp_of(img.format_view()) == 4,
        img.height_view() >= 43,
        img.width_view() >= 43,
    ensures
        r@ == generate_spec(img),
{
    let color_table = to_color_table(img, ImageParseOptions { skip_transparent: true });
    let frames = build_hat_sheet_frames();
    let template_table = create(43, 43, frames);
    proof {
        assert(table_view(template_table@).len() == 1 * 43);
        assert(template_table@.len() == table_view(template_table@).len());
        assert forall|y: int| 0 <= y < template_table@.len() implies (
        #[trigger] template_table@[y])@.len() <= color_table@[y]@.len() by {
            assert(table_view(template_table@)[y].len() == 1 * 43);
        }
    }
    let swaps = diffrent(template_table, color_table);
    let mut out = HAT_DIRECTIVES.to_owned();
    let directive = to_replace(&swaps, false);
    out.append(directive.as_str());
    proof {
        assert(table_view(color_table@) == color_table_spec(img, true));
    }
    out
}

} // verus!
