//! Label sets: the (method, path, status) dimensions that partition the
//! metrics into distinct series.

use vstd::prelude::*;

verus! {

/// The mathematical key of a series: the label values as plain sequences.
pub ghost struct LabelKey {
    pub method: Seq<char>,
    pub path: Seq<char>,
    pub status: u16,
}

/// An immutable label set attached to one observed request: HTTP method,
/// route template (or literal path) and numeric status code.
pub struct LabelSet {
    pub method: String,
    pub path: String,
    pub status: u16,
}

impl View for LabelSet {
    type V = LabelKey;

    open spec fn view(&self) -> LabelKey {
        LabelKey { method: self.method@, path: self.path@, status: self.status }
    }
}

impl LabelSet {
    pub fn new(method: String, path: String, status: u16) -> (r: LabelSet)
        ensures
            r@ == (LabelKey { method: method@, path: path@, status }),
    {
        LabelSet { method, path, status }
    }

    /// Whether two label sets name the same series.
    pub fn key_eq(&self, other: &LabelSet) -> (r: bool)
        ensures
            r == (self@ == other@),
    {
        let r = self.method == other.method && self.path == other.path && self.status
            == other.status;
        proof {
            if self@ == other@ {
                assert(self.method@ == other.method@);
                assert(self.path@ == other.path@);
            }
        }
        r
    }

    /// A fresh label set naming the same series.
    pub fn duplicate(&self) -> (r: LabelSet)
        ensures
            r@ == self@,
    {
        LabelSet { method: self.method.clone(), path: self.path.clone(), status: self.status }
    }
}

} // verus!
