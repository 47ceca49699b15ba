//! Syntax trees as plain data: what a parser found in a file, node by node,
//! and the rules a tree must obey before byte ranges are cut out of a file.

use vstd::prelude::*;

verus! {

/// One node of a concrete syntax tree.
///
/// `start_byte..end_byte` is the part of the file the node covers,
/// `start_row` the zero-based row of its first byte, and `children` its
/// children in source order.
#[derive(Debug, PartialEq, Eq)]
pub struct SyntaxNode {
    pub kind: String,
    pub start_byte: usize,
    pub end_byte: usize,
    pub start_row: usize,
    pub children: Vec<SyntaxNode>,
}

/// Whether `nodes` lie one after another, in order and without overlap,
/// inside `lo..hi`, each of them well formed.
pub open spec fn forest_well_formed(nodes: Seq<SyntaxNode>, lo: usize, hi: usize) -> bool
    decreases nodes, 0nat,
{
    if nodes.len() == 0 {
        lo <= hi
    } else {
        &&& forest_well_formed(nodes.drop_last(), lo, nodes.last().start_byte)
        &&& nodes.last().well_formed()
        &&& nodes.last().end_byte <= hi
    }
}

impl SyntaxNode {
    /// A node is well formed when its range is not reversed, its row can be
    /// turned into a one-based line, and its children are well formed, in
    /// order, disjoint and inside its own range.
    pub open spec fn well_formed(self) -> bool
        decreases self, 1nat,
    {
        &&& self.start_byte <= self.end_byte
        &&& self.start_row < usize::MAX
        &&& forest_well_formed(self.children@, self.start_byte, self.end_byte)
    }

    /// Decides `well_formed`.
    pub fn check_well_formed(&self) -> (ok: bool)
        ensures
            ok == self.well_formed(),
        decreases self,
    {
        if self.start_byte > self.end_byte || self.start_row == usize::MAX {
            return false;
        }
        let mut hi: usize = self.end_byte;
        let mut i: usize = self.children.len();
        assert(self.children@.take(i as int) =~= self.children@);
        while i > 0
            invariant
                i <= self.children.len(),
                self.start_byte <= self.end_byte,
                self.start_row < usize::MAX,
                forest_well_formed(self.children@, self.start_byte, self.end_byte)
                    == forest_well_formed(self.children@.take(i as int), self.start_byte, hi),
            decreases i,
        {
            let child = &self.children[i - 1];
            proof {
                let prefix = self.children@.take(i as int);
                assert(prefix.last() == self.children@[i - 1]);
                assert(prefix.drop_last() =~= self.children@.take(i - 1));
            }
            if child.end_byte > hi || !child.check_well_formed() {
                return false;
            }
            hi = child.start_byte;
            i -= 1;
        }
        proof {
            assert(self.children@.take(0).len() == 0);
        }
        self.start_byte <= hi
    }
}

} // verus!
