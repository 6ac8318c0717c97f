//! What is handed to the shaping program, and what is read back from it.

use vstd::prelude::*;
use crate::fea_parsing::{render_body_spec, render_fea_feature_body};
use crate::glyphs::{AugGlyph, aug_decode, aug_decode_spec};
use crate::substitutions2::SubstitutionList;
use crate::text::{push_lit, regex_replaced, replace_matches, string_of};

verus! {

/// The pattern of what the shaping program puts around the glyphs: the
/// bracket before them, the bracket behind them, and behind each glyph its
/// place and width with the bar that may follow.
pub open spec fn stripping_pattern() -> Seq<char> {
    "^\\[|\\=\\d+\\+\\d+\\|?|\\]$"@
}

/// The glyphs of a line of the shaping program's output, without what the
/// program puts around them.
pub fn strip_shaping_stuff(s: &str) -> (res: Option<String>)
    ensures
        match res {
            Some(t) => regex_replaced(stripping_pattern(), s@, 0, Seq::empty()) == Some(t@),
            None => regex_replaced(stripping_pattern(), s@, 0, Seq::empty()) is None,
        },
{
    let empty = String::new();
    replace_matches("^\\[|\\=\\d+\\+\\d+\\|?|\\]$", s, 0, empty.as_str())
}

/// What stands in a feature file before the body of its feature.
pub open spec fn feature_file_head() -> Seq<char> {
    "\n@lc = [a b c d e f g h i j k l m n o p q r s t u v w x y z];\n  \nfeature rlig {\n  "@
}

/// What stands in a feature file behind the body of its feature.
pub open spec fn feature_file_tail() -> Seq<char> {
    "\n} rlig;\n"@
}

/// The text of the feature file that tells the shaping program of a
/// substitution list: the class of the small letters, and one feature
/// whose body is the list.
pub fn feature_file_text(slist: &SubstitutionList) -> (res: String)
    ensures
        res@ == feature_file_head() + render_body_spec(slist@) + feature_file_tail(),
{
    let mut out: Vec<char> = Vec::new();
    push_lit(
        &mut out,
        "\n@lc = [a b c d e f g h i j k l m n o p q r s t u v w x y z];\n  \nfeature rlig {\n  ",
    );
    let body = render_fea_feature_body(slist);
    push_lit(&mut out, body.as_str());
    push_lit(&mut out, "\n} rlig;\n");
    assert(out@ =~= feature_file_head() + render_body_spec(slist@) + feature_file_tail());
    string_of(&out)
}

/// The glyphs that a line of the shaping program's output names.
pub fn shaped_glyphs(output: &str) -> (res: Option<Vec<AugGlyph>>)
    ensures
        match res {
            Some(glyphs) => match regex_replaced(stripping_pattern(), output@, 0, Seq::empty()) {
                Some(t) => glyphs@ == aug_decode_spec(t),
                None => false,
            },
            None => regex_replaced(stripping_pattern(), output@, 0, Seq::empty()) is None,
        },
{
    match strip_shaping_stuff(output) {
        Some(t) => Some(aug_decode(t.as_str())),
        None => None,
    }
}

} // verus!
