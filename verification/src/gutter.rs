//! The gutter a plugin draws beside the text: which lines it is asked
//! about, and how its answers become the gutter's text.

use vstd::prelude::*;
use crate::picker::{join_lines, lemma_join_push};
use crate::strings::{chars_to_string, extend_chars_str};

verus! {

/// The gutter provider is asked once per line, in order, with the 1-based
/// line number, `false` for "soft-wrap continuation row" (the body text is
/// not wrapped), and whether the line is the cursor's line.
pub open spec fn spec_gutter_requests(total_lines: nat, current_line: nat) -> Seq<(usize, bool, bool)> {
    Seq::new(total_lines, |i: int| ((i + 1) as usize, false, i == current_line))
}

/// The gutter provider's calls for a body of `total_lines` lines with the
/// cursor on line `current_line` (0-based).
pub fn gutter_requests(total_lines: usize, current_line: usize) -> (r: Vec<(usize, bool, bool)>)
    ensures
        r@ == spec_gutter_requests(total_lines as nat, current_line as nat),
{
    let mut r: Vec<(usize, bool, bool)> = Vec::new();
    let mut i: usize = 0;
    while i < total_lines
        invariant
            i <= total_lines,
            r@ == spec_gutter_requests(i as nat, current_line as nat),
        decreases total_lines - i,
    {
        r.push((i + 1, false, i == current_line));
        i += 1;
        proof {
            assert(r@ =~= spec_gutter_requests(i as nat, current_line as nat));
        }
    }
    r
}

/// A provider's answer as text: nothing for no answer.
pub open spec fn answer_text(a: Option<String>) -> Seq<char> {
    match a {
        Some(s) => s@,
        None => seq![],
    }
}

/// The gutter's text: the answers for each line, one per row.
pub open spec fn spec_gutter_column(answers: Seq<Option<String>>) -> Seq<char> {
    join_lines(answers.map_values(|a: Option<String>| answer_text(a)))
}

/// Joins the provider's answers, one per line, into the gutter's text.
pub fn gutter_column(answers: &Vec<Option<String>>) -> (t: String)
    ensures
        t@ == spec_gutter_column(answers@),
{
    let ghost all = answers@.map_values(|a: Option<String>| answer_text(a));
    let mut out: Vec<char> = Vec::new();
    let mut i: usize = 0;
    proof {
        assert(all.take(0) =~= Seq::<Seq<char>>::empty());
    }
    while i < answers.len()
        invariant
            i <= answers@.len(),
            all == answers@.map_values(|a: Option<String>| answer_text(a)),
            out@ == join_lines(all.take(i as int)),
        decreases answers@.len() - i,
    {
        let ghost before = out@;
        if i > 0 {
            extend_chars_str(&mut out, "\n");
        }
        match &answers[i] {
            Some(s) => extend_chars_str(&mut out, s.as_str()),
            None => {},
        }
        proof {
            let x = all[i as int];
            assert(x == answer_text(answers@[i as int]));
            assert(all.take(i + 1) =~= all.take(i as int).push(x));
            if i > 0 {
                lemma_join_push(all.take(i as int), x);
                reveal_strlit("\n");
            } else {
                assert(all.take(1) =~= seq![x]);
            }
            assert(out@ =~= join_lines(all.take(i + 1)));
        }
        i += 1;
    }
    proof {
        assert(all.take(answers@.len() as int) =~= all);
    }
    chars_to_string(out.as_slice())
}

} // verus!
