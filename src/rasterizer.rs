//! What the external rasterizer is asked to do for one page.
use vstd::prelude::*;
use crate::text::{chars_of, string_of, push_all, push_decimal, decimal};

verus! {

/// The characters of each string.
pub open spec fn views(v: Seq<String>) -> Seq<Seq<char>> {
    v.map_values(|s: String| s@)
}

/// The rasterizer's arguments: read `input` at 150 dpi, fit it within 1000x1000,
/// number scenes from 1, write each to its own file at `output`.
pub open spec fn magick_args(input: Seq<char>, output: Seq<char>) -> Seq<Seq<char>> {
    seq![
        "-density"@,
        "150"@,
        input,
        "-resize"@,
        "1000x1000"@,
        "-scene"@,
        "1"@,
        "+adjoin"@,
        output,
    ]
}

/// The rasterizer's input that selects one page (0-based) of `source`: `source[index]`.
pub open spec fn page_selector(source: Seq<char>, index: nat) -> Seq<char> {
    source.push('[') + decimal(index) + seq![']']
}

pub fn create_magick_args(input: &str, output: &str) -> (r: Vec<String>)
    ensures
        views(r@) == magick_args(input@, output@),
{
    let mut r: Vec<String> = Vec::new();
    r.push("-density".to_owned());
    r.push("150".to_owned());
    r.push(input.to_owned());
    r.push("-resize".to_owned());
    r.push("1000x1000".to_owned());
    r.push("-scene".to_owned());
    r.push("1".to_owned());
    r.push("+adjoin".to_owned());
    r.push(output.to_owned());
    assert(views(r@) =~= magick_args(input@, output@));
    r
}

/// The selector of page `index` (0-based) of `source`.
pub fn page_selector_string(source: &str, index: usize) -> (r: String)
    ensures
        r@ == page_selector(source@, index as nat),
{
    let src = chars_of(source);
    let mut out: Vec<char> = Vec::new();
    push_all(&mut out, &src);
    out.push('[');
    push_decimal(&mut out, index);
    out.push(']');
    assert(out@ =~= page_selector(source@, index as nat));
    string_of(&out)
}

} // verus!
