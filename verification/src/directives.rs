pub mod back;

use vstd::prelude::*;
use vstd::string::StringExecFns;

use crate::image::{lemma_swaps_view_from, swaps_view_from};

verus! {

/// The text of one palette swap after another, from index `i` on:
/// `;key=value` for each pair, in order.
pub open spec fn replace_pairs(pairs: Seq<(Seq<char>, Seq<char>)>, i: int) -> Seq<char>
    decreases pairs.len() - i,
{
    if i < 0 || i >= pairs.len() {
        Seq::<char>::empty()
    } else {
        seq![';'] + pairs[i].0 + seq!['='] + pairs[i].1 + replace_pairs(pairs, i + 1)
    }
}

/// The whole replace directive for a palette: the directive name,
/// unless omitted, then every swap in order.
pub open spec fn replace_spec(pairs: Seq<(Seq<char>, Seq<char>)>, omit_replace: bool) -> Seq<
    char,
> {
    (if omit_replace {
        Seq::<char>::empty()
    } else {
        "?replace"@
    }) + replace_pairs(pairs, 0)
}

/// Render a palette as a replace directive.
#[verifier::loop_isolation(false)]
pub fn to_replace(palette: &Vec<(String, String)>, omit_replace: bool) -> (r: String)
    ensures
        r@ == replace_spec(swaps_view_from(palette@, 0), omit_replace),
{
    let ghost pv = swaps_view_from(palette@, 0);
    proof {
        lemma_swaps_view_from(palette@, 0);
        reveal_strlit(";");
        reveal_strlit("=");
        assert(";"@ =~= seq![';']);
        assert("="@ =~= seq!['=']);
    }
    let mut s = if omit_replace {
        String::new()
    } else {
        "?replace".to_owned()
    };
    let mut i: usize = 0;
    while i < palette.len()
        invariant
            0 <= i <= palette@.len(),
            s@ + replace_pairs(pv, i as int) == replace_spec(pv, omit_replace),
        decreases palette@.len() - i,
    {
        let pair = &palette[i];
        s.append(";");
        s.append(pair.0.as_str());
        s.append("=");
        s.append(pair.1.as_str());
        proof {
            assert(pv[i as int] == (palette@[i as int].0@, palette@[i as int].1@));
            assert(s@ + replace_pairs(pv, i + 1) =~= replace_spec(pv, omit_replace));
        }
        i = i + 1;
    }
    assert(replace_pairs(pv, palette@.len() as int) == Seq::<char>::empty());
    assert(s@ =~= replace_spec(pv, omit_replace));
    s
}

} // verus!
