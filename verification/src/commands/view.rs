//! `view`: how an RFC's content is shown.
use vstd::prelude::*;

use crate::text::{blank_text, is_blank, split_words, words, lemma_leading_space_bound, leading_space, is_space};

verus! {

/// Where `view` sends the RFC's content.
#[derive(Debug)]
pub enum ViewOutput {
    /// Print it as it is.
    Print,
    /// Pipe it into this viewer command.
    Render(String),
}

/// `--raw` prints the content; otherwise a non-blank `RFC_VIEWER` renders
/// it, and without one it is printed.
pub fn view_output(raw: bool, viewer: Option<String>) -> (r: ViewOutput)
    ensures
        match r {
            ViewOutput::Print => raw || viewer is None || is_blank(viewer->Some_0@),
            ViewOutput::Render(v) => !raw && viewer == Some(v) && !is_blank(v@),
        },
{
    if raw {
        return ViewOutput::Print;
    }
    match viewer {
        Some(v) => {
            if blank_text(v.as_str()) {
                ViewOutput::Print
            } else {
                ViewOutput::Render(v)
            }
        },
        None => ViewOutput::Print,
    }
}

/// A text that is not blank holds a word.
pub proof fn lemma_not_blank_has_word(s: Seq<char>)
    requires
        !is_blank(s),
    ensures
        words(s).len() > 0,
{
    lemma_leading_space_bound(s);
    if leading_space(s) == s.len() {
        assert forall|i: int| 0 <= i < s.len() implies is_space(#[trigger] s[i]) by {}
    }
}

/// The viewer's program and its arguments: the words of `viewer`.
pub fn viewer_command(viewer: &str) -> (r: (String, Vec<String>))
    requires
        !is_blank(viewer@),
    ensures
        seq![r.0@] + Seq::new(r.1@.len(), |i: int| r.1@[i]@) == words(viewer@),
{
    proof {
        lemma_not_blank_has_word(viewer@);
    }
    let mut parts = split_words(viewer);
    let ghost all = Seq::new(parts@.len(), |i: int| parts@[i]@);
    let program = parts.remove(0);
    assert(seq![program@] + Seq::new(parts@.len(), |i: int| parts@[i]@) =~= all);
    (program, parts)
}

} // verus!
