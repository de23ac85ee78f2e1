//! Address-to-symbol lookup over a balanced static search tree, built
//! by repeated median split of a pre-sorted symbol list.

use vstd::prelude::*;
use vstd::seq_lib::group_to_multiset_ensures;

verus! {

broadcast use group_to_multiset_ensures;

/// One symbol: a name and the half-open address range it covers.
#[derive(Debug, Clone, Default)]
pub struct Symbol {
    pub name: String,
    pub addr: i64,
    pub size: i64,
}

/// Whether a symbol slice is sorted by ascending address.
pub open spec fn sorted_by_addr(s: Seq<Symbol>) -> bool {
    forall|i: int, j: int| 0 <= i <= j < s.len() ==> #[trigger] s[i].addr <= #[trigger] s[j].addr
}

/// Inserting anywhere in a sequence adds one occurrence to its
/// multiset.
pub proof fn lemma_insert_to_multiset<A>(s: Seq<A>, k: int, x: A)
    requires
        0 <= k <= s.len(),
    ensures
        s.insert(k, x).to_multiset() =~= s.to_multiset().insert(x),
    decreases s.len() - k,
{
    if k == s.len() {
        assert(s.insert(k, x) =~= s.push(x));
    } else {
        let t = s.drop_last();
        lemma_insert_to_multiset(t, k, x);
        assert(s.insert(k, x) =~= t.insert(k, x).push(s.last()));
        assert(s =~= t.push(s.last()));
    }
}

/// Sort symbols by ascending address (insertion sort). The result is a
/// permutation of the input.
pub fn sort_symbols(v: Vec<Symbol>) -> (r: Vec<Symbol>)
    ensures
        sorted_by_addr(r@),
        r@.to_multiset() == v@.to_multiset(),
        r@.len() == v@.len(),
{
    let ghost whole = v@;
    let mut out: Vec<Symbol> = Vec::new();
    let mut rest = v;
    while rest.len() > 0
        invariant
            sorted_by_addr(out@),
            out@.to_multiset().add(rest@.to_multiset()) =~= whole.to_multiset(),
            out@.len() + rest@.len() == whole.len(),
        decreases rest@.len(),
    {
        let ghost rest_before = rest@;
        let x = rest.remove(0);
        proof {
            assert(rest_before.contains(x)) by {
                assert(rest_before[0] == x);
            }
            assert(rest@.to_multiset().insert(x) =~= rest_before.to_multiset());
        }
        let mut k: usize = 0;
        while k < out.len() && out[k].addr <= x.addr
            invariant
                0 <= k <= out@.len(),
                forall|i: int| 0 <= i < k ==> #[trigger] out@[i].addr <= x.addr,
                sorted_by_addr(out@),
            decreases out@.len() - k,
        {
            k = k + 1;
        }
        let ghost pre_insert = out@;
        let ghost kk = k as int;
        out.insert(k, x);
        proof {
            lemma_insert_to_multiset(pre_insert, kk, x);
            assert forall|i: int, j: int| 0 <= i <= j < out@.len()
                implies #[trigger] out@[i].addr <= #[trigger] out@[j].addr by {
                if i < kk {
                    assert(out@[i] == pre_insert[i]);
                } else if i > kk {
                    assert(out@[i] == pre_insert[i - 1]);
                }
                if j < kk {
                    assert(out@[j] == pre_insert[j]);
                } else if j > kk {
                    assert(out@[j] == pre_insert[j - 1]);
                }
                if i < kk && kk <= j {
                    assert(out@[i].addr <= x.addr);
                }
                if i == kk && j > kk {
                    assert(x.addr <= pre_insert[j - 1].addr);
                }
            }
        }
    }
    out
}

/// A node of the balanced search tree over symbols.
#[derive(Debug)]
pub struct SymbolTreeNode {
    pub start: i64,
    pub size: i64,
    pub name: String,
    pub left: Option<Box<SymbolTreeNode>>,
    pub right: Option<Box<SymbolTreeNode>>,
}

/// The number of nodes in an optional subtree.
pub open spec fn tree_size_opt(t: Option<Box<SymbolTreeNode>>) -> nat
    decreases t,
{
    match t {
        None => 0,
        Some(n) => n.spec_size(),
    }
}

/// Whether an optional subtree holds a symbol with this name and range.
pub open spec fn tree_has_opt(
    t: Option<Box<SymbolTreeNode>>,
    name: Seq<char>,
    start: i64,
    size: i64,
) -> bool
    decreases t,
{
    match t {
        None => false,
        Some(n) => n.spec_has(name, start, size),
    }
}

/// The `(name, start, size)` triples of a symbol sequence.
pub open spec fn sym_triples(s: Seq<Symbol>) -> Seq<(Seq<char>, i64, i64)> {
    s.map_values(|x: Symbol| (x.name@, x.addr, x.size))
}

/// The in-order traversal of an optional subtree, as
/// `(name, start, size)` triples.
pub open spec fn tree_inorder_opt(t: Option<Box<SymbolTreeNode>>) -> Seq<(Seq<char>, i64, i64)>
    decreases t,
{
    match t {
        None => Seq::empty(),
        Some(n) => tree_inorder_opt(n.left) + seq![(n.name@, n.start, n.size)]
            + tree_inorder_opt(n.right),
    }
}

/// The number of levels of an optional subtree.
pub open spec fn tree_depth_opt(t: Option<Box<SymbolTreeNode>>) -> nat
    decreases t,
{
    match t {
        None => 0,
        Some(n) => 1 + if tree_depth_opt(n.left) >= tree_depth_opt(n.right) {
            tree_depth_opt(n.left)
        } else {
            tree_depth_opt(n.right)
        },
    }
}

/// Whether an optional subtree is arranged for search on addresses:
/// sizes are non-negative, everything in a left subtree ends at or
/// before its node's start, and everything in a right subtree starts at
/// or after its node's end.
pub open spec fn tree_bst_opt(t: Option<Box<SymbolTreeNode>>) -> bool
    decreases t,
{
    match t {
        None => true,
        Some(n) => n.spec_bst(),
    }
}

/// Whether a symbol sequence is sorted by address with pairwise
/// non-overlapping `[addr, addr + size)` ranges.
pub open spec fn ranges_disjoint_sorted(s: Seq<Symbol>) -> bool {
    &&& forall|i: int| 0 <= i < s.len() ==> (#[trigger] s[i]).size >= 0
    &&& forall|i: int, j: int| 0 <= i < j < s.len()
        ==> (#[trigger] s[i]).addr + s[i].size <= (#[trigger] s[j]).addr
}

/// Two to the given power.
pub open spec fn two_to(n: nat) -> nat
    decreases n,
{
    if n == 0 {
        1
    } else {
        2 * two_to((n - 1) as nat)
    }
}

proof fn lemma_two_to_pos(n: nat)
    ensures
        two_to(n) >= 1,
    decreases n,
{
    if n > 0 {
        lemma_two_to_pos((n - 1) as nat);
    }
}

/// A subtree holds a triple exactly when its in-order traversal does.
proof fn lemma_tree_has_inorder(
    t: Option<Box<SymbolTreeNode>>,
    name: Seq<char>,
    start: i64,
    size: i64,
)
    ensures
        tree_has_opt(t, name, start, size) <==> tree_inorder_opt(t).contains(
            (name, start, size),
        ),
    decreases t,
{
    match t {
        None => {
            assert(!tree_inorder_opt(t).contains((name, start, size)));
        },
        Some(n) => {
            lemma_tree_has_inorder(n.left, name, start, size);
            lemma_tree_has_inorder(n.right, name, start, size);
            let lo = tree_inorder_opt(n.left);
            let mid = seq![(n.name@, n.start, n.size)];
            let ro = tree_inorder_opt(n.right);
            let whole = lo + mid + ro;
            if tree_has_opt(t, name, start, size) {
                if n.name@ == name && n.start == start && n.size == size {
                    assert(whole[lo.len() as int] == (name, start, size));
                } else if tree_has_opt(n.left, name, start, size) {
                    let k = choose|k: int| 0 <= k < lo.len() && lo[k] == (name, start, size);
                    assert(whole[k] == (name, start, size));
                } else {
                    let k = choose|k: int| 0 <= k < ro.len() && ro[k] == (name, start, size);
                    assert(whole[k + lo.len() + 1] == (name, start, size));
                }
            }
            if whole.contains((name, start, size)) {
                let k = choose|k: int| 0 <= k < whole.len() && whole[k] == (name, start, size);
                if k < lo.len() {
                    assert(lo[k] == (name, start, size));
                } else if k == lo.len() {
                } else {
                    assert(ro[k - lo.len() - 1] == (name, start, size));
                }
            }
        },
    }
}

impl SymbolTreeNode {
    /// The number of nodes in this subtree.
    pub open spec fn spec_size(&self) -> nat
        decreases *self,
    {
        1 + tree_size_opt(self.left) + tree_size_opt(self.right)
    }

    /// Whether this subtree is arranged for search on addresses; see
    /// `tree_bst_opt`.
    pub open spec fn spec_bst(&self) -> bool
        decreases *self,
    {
        &&& self.size >= 0
        &&& forall|nm: Seq<char>, s: i64, sz: i64|
            #[trigger] tree_has_opt(self.left, nm, s, sz) ==> s + sz <= self.start && sz >= 0
        &&& forall|nm: Seq<char>, s: i64, sz: i64|
            #[trigger] tree_has_opt(self.right, nm, s, sz)
                ==> self.start + self.size <= s && sz >= 0
        &&& tree_bst_opt(self.left)
        &&& tree_bst_opt(self.right)
    }

    /// Whether some symbol of this subtree covers `value`.
    pub open spec fn spec_covers(&self, value: i64) -> bool {
        exists|nm: Seq<char>, s: i64, sz: i64|
            #[trigger] self.spec_has(nm, s, sz) && s <= value < s + sz
    }

    /// Whether this subtree holds a symbol with this name and range.
    pub open spec fn spec_has(&self, name: Seq<char>, start: i64, size: i64) -> bool
        decreases *self,
    {
        ||| (self.name@ == name && self.start == start && self.size == size)
        ||| tree_has_opt(self.left, name, start, size)
        ||| tree_has_opt(self.right, name, start, size)
    }

    /// Build a balanced static search tree from a sorted symbol slice
    /// by repeated median split. The tree's in-order traversal is the
    /// slice exactly (same triples, same order, nothing else); its root
    /// is the slice's median; when the input ranges are sorted and
    /// non-overlapping, the tree is arranged for search on addresses;
    /// and its depth is logarithmic in the number of symbols without
    /// explicit rebalancing.
    pub fn build(slice: &[Symbol]) -> (r: Option<Box<SymbolTreeNode>>)
        ensures
            (r is None) <==> slice@.len() == 0,
            tree_size_opt(r) == slice@.len(),
            tree_inorder_opt(r) == sym_triples(slice@),
            forall|j: int| 0 <= j < slice@.len()
                ==> tree_has_opt(r, #[trigger] slice@[j].name@, slice@[j].addr, slice@[j].size),
            slice@.len() > 0 ==> (r matches Some(bx)
                && bx.name@ == slice@[slice@.len() as int / 2].name@
                && bx.start == slice@[slice@.len() as int / 2].addr
                && bx.size == slice@[slice@.len() as int / 2].size),
            ranges_disjoint_sorted(slice@) ==> tree_bst_opt(r),
            slice@.len() == 0 ==> tree_depth_opt(r) == 0,
            slice@.len() > 0 ==> two_to(tree_depth_opt(r)) <= 2 * slice@.len(),
        decreases slice@.len(),
    {
        if slice.len() == 0 {
            return None;
        }
        let mid: usize = slice.len() / 2;
        let symbol: &Symbol = &slice[mid];
        let left = Self::build(vstd::slice::slice_subrange(slice, 0, mid));
        let right = Self::build(vstd::slice::slice_subrange(slice, mid + 1, slice.len()));
        let node = SymbolTreeNode {
            start: symbol.addr,
            size: symbol.size,
            name: symbol.name.clone(),
            left,
            right,
        };
        let r = Some(Box::new(node));
        proof {
            let bx = r->Some_0;
            let len = slice@.len() as int;
            let sub_l = slice@.subrange(0, mid as int);
            let sub_r = slice@.subrange(mid + 1, len);
            assert(tree_size_opt(r) == bx.spec_size());
            assert forall|j: int| 0 <= j < slice@.len()
                implies tree_has_opt(r, #[trigger] slice@[j].name@,
                    slice@[j].addr, slice@[j].size) by {
                if j < mid {
                    assert(sub_l[j] == slice@[j]);
                    assert(tree_has_opt(bx.left, slice@[j].name@, slice@[j].addr,
                        slice@[j].size));
                } else if j > mid {
                    assert(sub_r[j - mid - 1] == slice@[j]);
                    assert(tree_has_opt(bx.right, slice@[j].name@, slice@[j].addr,
                        slice@[j].size));
                }
            }
            // the in-order traversal is the slice itself
            let mine = seq![(bx.name@, bx.start, bx.size)];
            assert forall|i: int| 0 <= i < len
                implies (sym_triples(sub_l) + mine + sym_triples(sub_r))[i]
                    == sym_triples(slice@)[i] by {
                if i < mid {
                    assert(sub_l[i] == slice@[i]);
                } else if i > mid {
                    assert(sub_r[i - mid - 1] == slice@[i]);
                }
            }
            assert(tree_inorder_opt(r) =~= sym_triples(slice@));
            // arranged for search when the input ranges allow it
            if ranges_disjoint_sorted(slice@) {
                assert forall|i: int, j: int| 0 <= i < j < sub_l.len()
                    implies (#[trigger] sub_l[i]).addr + sub_l[i].size
                        <= (#[trigger] sub_l[j]).addr by {
                    assert(sub_l[i] == slice@[i] && sub_l[j] == slice@[j]);
                }
                assert forall|i: int| 0 <= i < sub_l.len()
                    implies (#[trigger] sub_l[i]).size >= 0 by {
                    assert(sub_l[i] == slice@[i]);
                }
                assert forall|i: int, j: int| 0 <= i < j < sub_r.len()
                    implies (#[trigger] sub_r[i]).addr + sub_r[i].size
                        <= (#[trigger] sub_r[j]).addr by {
                    assert(sub_r[i] == slice@[i + mid + 1] && sub_r[j] == slice@[j + mid + 1]);
                }
                assert forall|i: int| 0 <= i < sub_r.len()
                    implies (#[trigger] sub_r[i]).size >= 0 by {
                    assert(sub_r[i] == slice@[i + mid + 1]);
                }
                assert(ranges_disjoint_sorted(sub_l));
                assert(ranges_disjoint_sorted(sub_r));
                assert forall|nm: Seq<char>, s: i64, sz: i64|
                    #[trigger] tree_has_opt(bx.left, nm, s, sz)
                    implies s + sz <= bx.start && sz >= 0 by {
                    lemma_tree_has_inorder(bx.left, nm, s, sz);
                    let k = choose|k: int| 0 <= k < tree_inorder_opt(bx.left).len()
                        && tree_inorder_opt(bx.left)[k] == (nm, s, sz);
                    assert(sym_triples(sub_l)[k] == (nm, s, sz));
                    assert(sub_l[k] == slice@[k]);
                    assert(slice@[k].addr + slice@[k].size <= slice@[mid as int].addr);
                }
                assert forall|nm: Seq<char>, s: i64, sz: i64|
                    #[trigger] tree_has_opt(bx.right, nm, s, sz)
                    implies bx.start + bx.size <= s && sz >= 0 by {
                    lemma_tree_has_inorder(bx.right, nm, s, sz);
                    let k = choose|k: int| 0 <= k < tree_inorder_opt(bx.right).len()
                        && tree_inorder_opt(bx.right)[k] == (nm, s, sz);
                    assert(sym_triples(sub_r)[k] == (nm, s, sz));
                    assert(sub_r[k] == slice@[k + mid + 1]);
                    assert(slice@[mid as int].addr + slice@[mid as int].size
                        <= slice@[k + mid + 1].addr);
                }
                assert(bx.spec_bst());
            }
            // the depth is logarithmic in the symbol count
            let dl = tree_depth_opt(bx.left);
            let dr = tree_depth_opt(bx.right);
            let dmax: nat = if dl >= dr { dl } else { dr };
            assert(tree_depth_opt(r) == 1 + dmax);
            assert(two_to((1 + dmax) as nat) == 2 * two_to(dmax));
            vstd::arithmetic::div_mod::lemma_fundamental_div_mod(len, 2);
            vstd::arithmetic::div_mod::lemma_mod_bound(len, 2);
            if mid == 0 {
                assert(dl == 0 && dr == 0);
            } else {
                assert(two_to(dl) <= 2 * mid);
                if sub_r.len() == 0 {
                    lemma_two_to_pos(dr);
                    assert(two_to(dr) <= 2 * mid);
                } else {
                    assert(two_to(dr) <= 2 * sub_r.len());
                    assert(sub_r.len() <= mid);
                }
                assert(two_to(dmax) <= 2 * mid);
                assert(2 * (mid as int) <= len);
            }
        }
        r
    }

    /// Find a symbol whose address range covers `value`, descending the
    /// tree. A returned pair names a symbol of the tree whose range
    /// contains `value`; and on a tree arranged for search (as `build`
    /// makes from sorted, non-overlapping symbols), a covering symbol
    /// is always found when one exists.
    pub fn lookup(&self, value: i64) -> (r: Option<(&str, i64)>)
        ensures
            r matches Some(p) ==> exists|sz: i64| #[trigger] self.spec_has(p.0@, p.1, sz)
                && p.1 <= value && value - p.1 < sz,
            self.spec_bst() && self.spec_covers(value) ==> r is Some,
        decreases *self,
    {
        if value < self.start {
            return match &self.left {
                Some(node) => {
                    let r = node.lookup(value);
                    proof {
                        match r {
                            Some(p) => {
                                let sz = choose|sz: i64| node.spec_has(p.0@, p.1, sz)
                                    && p.1 <= value && value - p.1 < sz;
                                assert(self.spec_has(p.0@, p.1, sz));
                            },
                            None => {},
                        }
                        if self.spec_bst() && self.spec_covers(value) {
                            let (nm, s, sz) = choose|nm: Seq<char>, s: i64, sz: i64|
                                #[trigger] self.spec_has(nm, s, sz) && s <= value < s + sz;
                            // the covering symbol lies left of this node
                            assert(!(nm == self.name@ && s == self.start && sz == self.size));
                            assert(!tree_has_opt(self.right, nm, s, sz));
                            assert(node.spec_has(nm, s, sz));
                            assert(node.spec_covers(value));
                        }
                    }
                    r
                },
                None => {
                    proof {
                        if self.spec_bst() && self.spec_covers(value) {
                            let (nm, s, sz) = choose|nm: Seq<char>, s: i64, sz: i64|
                                #[trigger] self.spec_has(nm, s, sz) && s <= value < s + sz;
                            assert(!(nm == self.name@ && s == self.start && sz == self.size));
                            assert(!tree_has_opt(self.right, nm, s, sz));
                            assert(!tree_has_opt(self.left, nm, s, sz));
                            assert(false);
                        }
                    }
                    None
                },
            };
        }
        let off: u64 = (value as u64).wrapping_sub(self.start as u64);
        proof {
            crate::insts::lemma_cast_i64_u64(value);
            crate::insts::lemma_cast_i64_u64(self.start);
            crate::insts::lemma_cast_i64_u64(self.size);
        }
        if self.size >= 0 && off < self.size as u64 {
            let nm: &str = self.name.as_str();
            let r: Option<(&str, i64)> = Some((nm, self.start));
            proof {
                match r {
                    Some(p) => {
                        assert(off == value - self.start);
                        assert(self.spec_has(self.name@, self.start, self.size));
                        assert(p.0@ == self.name@ && p.1 == self.start);
                        assert(self.spec_has(p.0@, p.1, self.size)
                            && p.1 <= value && value - p.1 < self.size);
                    },
                    None => {},
                }
            }
            return r;
        }
        proof {
            if self.spec_bst() {
                // past both earlier branches: this node does not cover
                assert(off == value - self.start);
                assert(value >= self.start + self.size);
            }
        }
        match &self.right {
            Some(node) => {
                let r = node.lookup(value);
                proof {
                    match r {
                        Some(p) => {
                            let sz = choose|sz: i64| node.spec_has(p.0@, p.1, sz)
                                && p.1 <= value && value - p.1 < sz;
                            assert(self.spec_has(p.0@, p.1, sz));
                        },
                        None => {},
                    }
                    if self.spec_bst() && self.spec_covers(value) {
                        let (nm, s, sz) = choose|nm: Seq<char>, s: i64, sz: i64|
                            #[trigger] self.spec_has(nm, s, sz) && s <= value < s + sz;
                        // the covering symbol lies right of this node
                        assert(!(nm == self.name@ && s == self.start && sz == self.size));
                        assert(!tree_has_opt(self.left, nm, s, sz));
                        assert(node.spec_has(nm, s, sz));
                        assert(node.spec_covers(value));
                    }
                }
                r
            },
            None => {
                proof {
                    if self.spec_bst() && self.spec_covers(value) {
                        let (nm, s, sz) = choose|nm: Seq<char>, s: i64, sz: i64|
                            #[trigger] self.spec_has(nm, s, sz) && s <= value < s + sz;
                        assert(!(nm == self.name@ && s == self.start && sz == self.size));
                        assert(!tree_has_opt(self.left, nm, s, sz));
                        assert(!tree_has_opt(self.right, nm, s, sz));
                        assert(false);
                    }
                }
                None
            },
        }
    }

    /// The number of symbols in the tree.
    pub fn count(&self) -> (r: usize)
        requires
            self.spec_size() <= usize::MAX,
        ensures
            r == self.spec_size(),
        decreases *self,
    {
        let l: usize = match &self.left {
            Some(node) => node.count(),
            None => 0,
        };
        let rr: usize = match &self.right {
            Some(node) => node.count(),
            None => 0,
        };
        1 + l + rr
    }
}

} // verus!
