//! A text split into lines.

use crate::lang::operations;
use crate::lang::parser;
use vstd::prelude::*;

verus! {

/// The lines of a text.
pub struct Index {
    lines: Vec<String>,
}

impl Index {
    /// The lines, from the first on.
    pub closed spec fn lines(&self) -> Seq<String> {
        self.lines@
    }

    /// The line with the number `num`, counted from 0.
    pub fn line(&self, num: usize) -> (line: &str)
        requires
            num < self.lines().len(),
        ensures
            line@ == self.lines()[num as int]@,
    {
        self.lines[num].as_str()
    }

    /// The number of lines.
    pub fn len(&self) -> (len: usize)
        ensures
            len == self.lines().len(),
    {
        self.lines.len()
    }
}

/// The index of the lines of the text that `bytes` are: the parts between
/// the line feeds. There is none where a line is not valid UTF-8.
pub fn build_index(bytes: &[u8]) -> (index: Option<Index>)
    ensures
        index is Some <==> forall|at: int|
            0 <= at < parser::split(bytes@, 0x0a).len() ==> parser::text_of(
                #[trigger] parser::split(bytes@, 0x0a)[at],
            ) is Some,
        index matches Some(found) ==> found.lines().len() == parser::split(bytes@, 0x0a).len()
            && forall|at: int|
            0 <= at < found.lines().len() ==> Some((#[trigger] found.lines()[at])@)
                == parser::text_of(parser::split(bytes@, 0x0a)[at]),
{
    let parts = parser::split_at(bytes, 0x0a);
    let ghost all = parser::split(bytes@, 0x0a);
    assert(forall|at: int| 0 <= at < parts@.len() ==> parts@[at]@ == #[trigger] all[at]);
    let mut lines: Vec<String> = Vec::new();
    let mut at: usize = 0;
    while at < parts.len()
        invariant
            at <= parts@.len(),
            all == parser::split(bytes@, 0x0a),
            all.len() == parts@.len(),
            forall|at: int| 0 <= at < parts@.len() ==> parts@[at]@ == #[trigger] all[at],
            lines@.len() == at,
            forall|before: int|
                0 <= before < at ==> Some((#[trigger] lines@[before])@) == parser::text_of(
                    all[before],
                ),
        decreases parts@.len() - at,
    {
        let copy = vstd::slice::slice_to_vec(parts[at].as_slice());
        match operations::text_of_utf8(copy) {
            Some(line) => {
                lines.push(line);
            },
            None => {
                assert(parser::text_of(all[at as int]) is None);
                return None;
            },
        }
        at += 1;
    }
    assert forall|at: int| 0 <= at < all.len() implies parser::text_of(#[trigger] all[at])
        is Some by {
        assert(Some(lines@[at]@) == parser::text_of(all[at]));
    }
    Some(Index { lines })
}

} // verus!
