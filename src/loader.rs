//! Reading a list of track identifiers written one per line.
use crate::extract::collect_ids;
use crate::text::{lines, lines_text, trim, trim_text, views};
use vstd::prelude::*;

verus! {

/// A line, trimmed, unless nothing is left of it.
pub open spec fn listed_line() -> spec_fn(Seq<char>) -> Option<Seq<char>> {
    |l: Seq<char>|
        if trim(l).len() > 0 {
            Some(trim(l))
        } else {
            None
        }
}

/// The entries of a list written one per line: each line trimmed, blank
/// lines dropped, order kept.
pub open spec fn listed_ids(content: Seq<char>) -> Seq<Seq<char>> {
    collect_ids(lines(content), listed_line())
}

/// Reads a list written one per line: every line is trimmed and blank lines
/// are dropped; the entries are not checked to be identifiers.
pub fn track_ids_from_text(content: &str) -> (r: Vec<String>)
    ensures
        views(r@) == listed_ids(content@),
{
    let ls = lines_text(content);
    let mut r: Vec<String> = Vec::new();
    for i in 0..ls.len()
        invariant
            views(ls@) == lines(content@),
            views(r@) == collect_ids(views(ls@).take(i as int), listed_line()),
    {
        let ghost done = views(r@);
        assert(views(ls@).take(i + 1).drop_last() =~= views(ls@).take(i as int));
        let t = trim_text(ls[i].as_str());
        if t.unicode_len() > 0 {
            r.push(t);
            assert(views(r@) =~= done.push(r@.last()@));
        }
    }
    assert(views(ls@).take(ls.len() as int) =~= views(ls@));
    r
}

} // verus!
