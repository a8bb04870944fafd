//! Sequential access to the lines of a text, with one line of pushback.

use vstd::prelude::*;

verus! {

/// Hands out the lines of a text one by one. A line that was read can be
/// given back once, and is then the next line handed out.
pub struct LineScanner {
    lines: Vec<String>,
    pos: usize,
    held: Option<String>,
}

impl LineScanner {
    #[verifier::type_invariant]
    spec fn inv(self) -> bool {
        self.pos <= self.lines.len()
    }

    /// The lines still to come, the one given back (if any) first.
    pub closed spec fn remaining(self) -> Seq<Seq<char>> {
        let rest = self.lines.deep_view().skip(self.pos as int);
        match self.held {
            Some(line) => seq![line@] + rest,
            None => rest,
        }
    }

    /// Whether a line has been given back and not yet read again.
    pub closed spec fn has_pushback(self) -> bool {
        self.held is Some
    }

    /// A scanner at the start of `lines`.
    pub fn new(lines: Vec<String>) -> (s: Self)
        ensures
            s.remaining() == lines.deep_view(),
            !s.has_pushback(),
    {
        proof {
            assert(lines.deep_view().skip(0) =~= lines.deep_view());
        }
        LineScanner { lines, pos: 0, held: None }
    }

    /// The next line, or `None` at the end of the text.
    pub fn next(&mut self) -> (r: Option<String>)
        ensures
            !final(self).has_pushback(),
            old(self).remaining().len() == 0 ==> r is None && final(self).remaining() == old(
                self,
            ).remaining(),
            old(self).remaining().len() > 0 ==> r is Some && r->0@ == old(self).remaining()[0]
                && final(self).remaining() == old(self).remaining().skip(1),
    {
        proof {
            use_type_invariant(&*self);
        }
        match &self.held {
            Some(line) => {
                let line = line.clone();
                proof {
                    let rest = self.lines.deep_view().skip(self.pos as int);
                    assert((seq![line@] + rest).skip(1) =~= rest);
                }
                self.held = None;
                Some(line)
            },
            None => {
                if self.pos < self.lines.len() {
                    let line = self.lines[self.pos].clone();
                    proof {
                        let all = self.lines.deep_view();
                        assert(all.skip(self.pos as int).skip(1) =~= all.skip(self.pos + 1));
                    }
                    self.pos = self.pos + 1;
                    Some(line)
                } else {
                    None
                }
            },
        }
    }

    /// Gives `line` back: it is the next line that `next` hands out.
    pub fn pushback(&mut self, line: String)
        requires
            !old(self).has_pushback(),
        ensures
            final(self).has_pushback(),
            final(self).remaining() == seq![line@] + old(self).remaining(),
    {
        proof {
            use_type_invariant(&*self);
        }
        self.held = Some(line);
    }
}

} // verus!
