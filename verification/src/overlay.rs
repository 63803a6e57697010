//! Mounts that lay a writable directory over read-only ones.
use crate::text::{glue, glue3};
use vstd::prelude::*;

verus! {

/// A mount: read-only layers, the first at the bottom, a writable one above them, a working
/// directory, and where the result appears.
#[derive(Debug)]
pub struct OverlayMount {
    pub lower_dirs: Vec<String>,
    pub upper_dir: String,
    pub work_dir: String,
    pub merged_dir: String,
}

/// The mathematical value of an `OverlayMount`.
#[verifier::ext_equal]
pub struct OverlayView {
    pub lower_dirs: Seq<Seq<char>>,
    pub upper_dir: Seq<char>,
    pub work_dir: Seq<char>,
    pub merged_dir: Seq<char>,
}

impl DeepView for OverlayMount {
    type V = OverlayView;

    open spec fn deep_view(&self) -> OverlayView {
        OverlayView {
            lower_dirs: self.lower_dirs.deep_view(),
            upper_dir: self.upper_dir@,
            work_dir: self.work_dir@,
            merged_dir: self.merged_dir@,
        }
    }
}

/// The layers as the kernel wants them, the top one first and colons between them.
pub open spec fn stacked(lower: Seq<Seq<char>>) -> Seq<char>
    decreases lower.len(),
{
    if lower.len() == 0 {
        Seq::empty()
    } else if lower.len() == 1 {
        lower[0]
    } else {
        lower.last() + ":"@ + stacked(lower.drop_last())
    }
}

impl OverlayMount {
    /// Describes a mount.
    pub fn new(
        lower_dirs: Vec<String>,
        upper_dir: String,
        work_dir: String,
        merged_dir: String,
    ) -> (r: Self)
        ensures
            r == (OverlayMount { lower_dirs, upper_dir, work_dir, merged_dir }),
    {
        OverlayMount { lower_dirs, upper_dir, work_dir, merged_dir }
    }

    /// The options of the mount. `placeholder` is an empty directory that stands at the bottom where
    /// there are no layers.
    pub fn options(&self, placeholder: &str) -> (r: String)
        ensures
            r@ == "lowerdir="@ + (if self.lower_dirs@.len() == 0 {
                placeholder@
            } else {
                stacked(self.lower_dirs.deep_view())
            }) + ",upperdir="@ + self.upper_dir@ + ",workdir="@ + self.work_dir@,
    {
        let mut lower = placeholder.to_owned();
        let ghost s = self.lower_dirs.deep_view();
        let n: usize = self.lower_dirs.len();
        if n > 0 {
            lower = self.lower_dirs[0].clone();
            let mut i: usize = 1;
            proof {
                assert(s.take(1)[0] == self.lower_dirs@[0]@);
            }
            while i < n
                invariant
                    1 <= i <= n,
                    n == self.lower_dirs@.len(),
                    s == self.lower_dirs.deep_view(),
                    lower@ == stacked(s.take(i as int)),
                decreases n - i,
            {
                proof {
                    assert(s.take(i + 1).drop_last() =~= s.take(i as int));
                    assert(s.take(i + 1).last() == self.lower_dirs@[i as int]@);
                }
                lower = glue3(self.lower_dirs[i].as_str(), ":", lower.as_str());
                i = i + 1;
            }
            proof {
                assert(s.take(n as int) =~= s);
            }
        }
        let start = glue3("lowerdir=", lower.as_str(), ",upperdir=");
        let middle = glue3(start.as_str(), self.upper_dir.as_str(), ",workdir=");
        glue(middle.as_str(), self.work_dir.as_str())
    }
}

/// The kernel is told the top layer first, with a colon before those below it; one layer stands for
/// itself.
pub proof fn law_top_layer_comes_first(lower: Seq<Seq<char>>, top: Seq<char>)
    ensures
        stacked(seq![top]) == top,
        lower.len() > 0 ==> stacked(lower.push(top)) == top + ":"@ + stacked(lower),
{
    assert(lower.push(top).drop_last() =~= lower);
}

} // verus!
