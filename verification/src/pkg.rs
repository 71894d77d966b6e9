//! Which package and which binary of it a command drives.

use crate::answers::{either, either_text};
use crate::config::Defaults;
use vstd::prelude::*;

verus! {

/// The package and the binary that were named on the command line.
pub struct PkgSel {
    pub package: Option<String>,
    pub bin: Option<String>,
}

#[verifier::ext_equal]
pub struct PkgSelView {
    pub package: Option<Seq<char>>,
    pub bin: Option<Seq<char>>,
}

impl DeepView for PkgSel {
    type V = PkgSelView;

    open spec fn deep_view(&self) -> PkgSelView {
        PkgSelView {
            package: self.package.deep_view(),
            bin: self.bin.deep_view(),
        }
    }
}

impl PkgSel {
    /// The package and the binary: those that were named, or those of the
    /// configuration.
    pub fn resolve(&self, d: &Defaults) -> (r: (Option<String>, Option<String>))
        ensures
            r.0.deep_view() == either(self.deep_view().package, d.deep_view().package),
            r.1.deep_view() == either(self.deep_view().bin, d.deep_view().bin),
    {
        (either_text(&self.package, &d.package), either_text(&self.bin, &d.bin))
    }
}

} // verus!
