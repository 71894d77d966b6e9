//! The lines that tell how far a command has come.

use crate::text::{cat2, cat5};
use vstd::prelude::*;

verus! {

/// A step that was announced.
pub struct Step {
    msg: String,
    finished: bool,
}

impl Step {
    pub closed spec fn message(&self) -> Seq<char> {
        self.msg@
    }

    pub closed spec fn done(&self) -> bool {
        self.finished
    }

    /// The line that announces the step.
    pub fn announce(&self) -> (r: String)
        ensures
            r@ == "→ "@ + self.message(),
    {
        cat2("→ ", self.msg.as_str())
    }

    /// Ends the step, which took `secs` seconds.
    pub fn finish(&mut self, secs: &str) -> (r: String)
        ensures
            r@ == "✓ "@ + old(self).message() + " ("@ + secs@ + "s)"@,
            final(self).done(),
            final(self).message() == old(self).message(),
    {
        self.finished = true;
        cat5("✓ ", self.msg.as_str(), " (", secs, "s)")
    }

    /// The line for a step that is dropped after `secs` seconds; none for one that
    /// was ended.
    pub fn abandon(&self, secs: &str) -> (r: Option<String>)
        ensures
            r is None <==> self.done(),
            r matches Some(s) ==> s@ == "✗ "@ + self.message() + " ("@ + secs@ + "s)"@,
    {
        if self.finished {
            None
        } else {
            Some(cat5("✗ ", self.msg.as_str(), " (", secs, "s)"))
        }
    }
}

/// A step that is about to start.
pub fn step(msg: &str) -> (r: Step)
    ensures
        r.message() == msg@,
        !r.done(),
{
    Step { msg: msg.to_owned(), finished: false }
}

} // verus!
