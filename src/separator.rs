//! A separator that is empty the first time it is asked for.
use vstd::prelude::*;

verus! {

/// Hands out `""` on the first call of `next`, then `sep` on every later
/// one: what goes between the items of a list.
pub struct Separator {
    sep: &'static str,
    first: bool,
}

impl Separator {
    /// The separator text.
    pub closed spec fn text(&self) -> Seq<char> {
        self.sep@
    }

    /// `next` has not been called yet.
    pub closed spec fn at_start(&self) -> bool {
        self.first
    }

    pub fn new(sep: &'static str) -> (r: Self)
        ensures
            r.text() == sep@,
            r.at_start(),
    {
        Self { sep, first: true }
    }

    /// What goes before the next item.
    pub fn next(&mut self) -> (r: &'static str)
        ensures
            r@ == (if old(self).at_start() { Seq::<char>::empty() } else { old(self).text() }),
            final(self).text() == old(self).text(),
            !final(self).at_start(),
    {
        if self.first {
            self.first = false;
            proof {
                reveal_strlit("");
            }
            ""
        } else {
            self.sep
        }
    }
}

} // verus!
