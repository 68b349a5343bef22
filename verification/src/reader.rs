//! What is kept of the lines read from a log file.

use vstd::prelude::*;

verus! {

/// The lines that were read and are not empty, in order.
pub open spec fn kept_lines(ls: Seq<Option<Seq<char>>>) -> Seq<Seq<char>>
    decreases ls.len(),
{
    if ls.len() == 0 {
        seq![]
    } else {
        let p = kept_lines(ls.drop_last());
        match ls.last() {
            Some(l) => if l.len() > 0 {
                p.push(l)
            } else {
                p
            },
            None => p,
        }
    }
}

/// Reads log files line by line; the file access itself is left to the caller.
pub struct Reader;

impl Reader {
    pub fn new() -> (r: Reader) {
        Reader
    }

    /// Of the lines of a file (`None` for a line that could not be read), keeps those that
    /// were read and are not empty.
    pub fn keep_lines(&self, lines: Vec<Option<String>>) -> (r: Vec<String>)
        ensures
            r.deep_view() == kept_lines(lines.deep_view()),
    {
        let ghost lv = lines.deep_view();
        let mut out: Vec<String> = Vec::new();
        let mut i: usize = 0;
        assert(lv.take(0) =~= Seq::<Option<Seq<char>>>::empty());
        while i < lines.len()
            invariant
                i <= lines@.len(),
                lv == lines.deep_view(),
                out.deep_view() =~= kept_lines(lv.take(i as int)),
            decreases lines@.len() - i,
        {
            assert(lv.take(i + 1).drop_last() =~= lv.take(i as int));
            match &lines[i] {
                Some(l) => {
                    if l.as_str().unicode_len() > 0 {
                        let ghost prev = out.deep_view();
                        out.push(l.clone());
                        assert(out.deep_view() =~= prev.push(l@));
                    }
                },
                None => {},
            }
            i = i + 1;
        }
        assert(lv.take(lines@.len() as int) =~= lv);
        out
    }
}

} // verus!
