//! Capability sets: one boolean per capability of a scope, with boolean set
//! algebra. A set is built from enabled-capability names, never mutated
//! afterwards, and compared, combined and validated as a value.

use vstd::prelude::*;

use crate::registry::RCap;

verus! {

/// The slot-wise OR of two equally long flag rows.
pub open spec fn spec_union(a: Seq<bool>, b: Seq<bool>) -> Seq<bool> {
    Seq::new(a.len(), |i: int| a[i] || b[i])
}

/// The slot-wise AND of two equally long flag rows.
pub open spec fn spec_intersection(a: Seq<bool>, b: Seq<bool>) -> Seq<bool> {
    Seq::new(a.len(), |i: int| a[i] && b[i])
}

/// The slot-wise AND-NOT of two equally long flag rows.
pub open spec fn spec_difference(a: Seq<bool>, b: Seq<bool>) -> Seq<bool> {
    Seq::new(a.len(), |i: int| a[i] && !b[i])
}

/// Whether every slot set in `b` is set in `a`: the subset test.
pub open spec fn spec_contains(a: Seq<bool>, b: Seq<bool>) -> bool {
    forall|i: int| 0 <= i < b.len() ==> (b[i] ==> a[i])
}

/// Whether no slot is set.
pub open spec fn spec_is_empty(a: Seq<bool>) -> bool {
    forall|i: int| 0 <= i < a.len() ==> !a[i]
}

/// One boolean per capability of a scope, in the scope's table order.
#[derive(Clone, Debug, PartialEq, Eq)]
pub struct CapabilitySet {
    pub flags: Vec<bool>,
}

impl View for CapabilitySet {
    type V = Seq<bool>;

    open spec fn view(&self) -> Seq<bool> {
        self.flags@
    }
}

/// Whether some name of `names` holds exactly the characters of `nm`.
fn names_contain(names: &Vec<String>, nm: &str) -> (r: bool)
    ensures
        r == exists|k: int| 0 <= k < names@.len() && names@[k]@ == nm@,
{
    let n = names.len();
    let mut k: usize = 0;
    while k < n
        invariant
            n == names@.len(),
            k <= n,
            forall|j: int| 0 <= j < k ==> names@[j]@ != nm@,
        decreases n - k,
    {
        if crate::text::str_eq(names[k].as_str(), nm) {
            return true;
        }
        k += 1;
    }
    false
}

impl CapabilitySet {
    /// The set over `caps` with exactly the slots whose capability name
    /// occurs in `names` enabled. A name that matches no capability is
    /// ignored: unrecognized capabilities must not make construction fail.
    pub fn from_names(caps: &Vec<RCap>, names: &Vec<String>) -> (r: Self)
        ensures
            r@.len() == caps@.len(),
            forall|i: int| 0 <= i < caps@.len() ==> r@[i] == exists|k: int|
                0 <= k < names@.len() && names@[k]@ == caps@[i].name@,
    {
        let n = caps.len();
        let mut flags: Vec<bool> = Vec::new();
        let mut i: usize = 0;
        while i < n
            invariant
                n == caps@.len(),
                i <= n,
                flags@.len() == i,
                forall|j: int| 0 <= j < i ==> flags@[j] == exists|k: int|
                    0 <= k < names@.len() && names@[k]@ == caps@[j].name@,
            decreases n - i,
        {
            let hit = names_contain(names, caps[i].name.as_str());
            flags.push(hit);
            i += 1;
        }
        CapabilitySet { flags }
    }

    /// An all-false set with one slot per capability of `caps`.
    pub fn empty(caps: &Vec<RCap>) -> (r: Self)
        ensures
            r@.len() == caps@.len(),
            spec_is_empty(r@),
    {
        let n = caps.len();
        let mut flags: Vec<bool> = Vec::new();
        let mut i: usize = 0;
        while i < n
            invariant
                i <= n,
                flags@.len() == i,
                forall|j: int| 0 <= j < i ==> !flags@[j],
            decreases n - i,
        {
            flags.push(false);
            i += 1;
        }
        CapabilitySet { flags }
    }

    /// Whether no capability is enabled.
    pub fn is_empty(&self) -> (r: bool)
        ensures
            r == spec_is_empty(self@),
    {
        let n = self.flags.len();
        let mut i: usize = 0;
        while i < n
            invariant
                n == self.flags@.len(),
                i <= n,
                forall|j: int| 0 <= j < i ==> !self.flags@[j],
            decreases n - i,
        {
            if self.flags[i] {
                return false;
            }
            i += 1;
        }
        true
    }

    /// The set enabling what either set enables.
    pub fn union(&self, other: &Self) -> (r: Self)
        requires
            self@.len() == other@.len(),
        ensures
            r@ == spec_union(self@, other@),
    {
        let n = self.flags.len();
        let mut flags: Vec<bool> = Vec::new();
        let mut i: usize = 0;
        while i < n
            invariant
                n == self.flags@.len(),
                n == other.flags@.len(),
                i <= n,
                flags@.len() == i,
                forall|j: int| 0 <= j < i ==> flags@[j] == (self.flags@[j] || other.flags@[j]),
            decreases n - i,
        {
            flags.push(self.flags[i] || other.flags[i]);
            i += 1;
        }
        let r = CapabilitySet { flags };
        proof {
            assert(r@ =~= spec_union(self@, other@));
        }
        r
    }

    /// The set enabling what both sets enable.
    pub fn intersection(&self, other: &Self) -> (r: Self)
        requires
            self@.len() == other@.len(),
        ensures
            r@ == spec_intersection(self@, other@),
    {
        let n = self.flags.len();
        let mut flags: Vec<bool> = Vec::new();
        let mut i: usize = 0;
        while i < n
            invariant
                n == self.flags@.len(),
                n == other.flags@.len(),
                i <= n,
                flags@.len() == i,
                forall|j: int| 0 <= j < i ==> flags@[j] == (self.flags@[j] && other.flags@[j]),
            decreases n - i,
        {
            flags.push(self.flags[i] && other.flags[i]);
            i += 1;
        }
        let r = CapabilitySet { flags };
        proof {
            assert(r@ =~= spec_intersection(self@, other@));
        }
        r
    }

    /// The set enabling what `self` enables and `other` does not.
    pub fn difference(&self, other: &Self) -> (r: Self)
        requires
            self@.len() == other@.len(),
        ensures
            r@ == spec_difference(self@, other@),
    {
        let n = self.flags.len();
        let mut flags: Vec<bool> = Vec::new();
        let mut i: usize = 0;
        while i < n
            invariant
                n == self.flags@.len(),
                n == other.flags@.len(),
                i <= n,
                flags@.len() == i,
                forall|j: int| 0 <= j < i ==> flags@[j] == (self.flags@[j] && !other.flags@[j]),
            decreases n - i,
        {
            flags.push(self.flags[i] && !other.flags[i]);
            i += 1;
        }
        let r = CapabilitySet { flags };
        proof {
            assert(r@ =~= spec_difference(self@, other@));
        }
        r
    }

    /// Whether `self` enables everything `other` enables: the subset test,
    /// not structural equality.
    pub fn contains(&self, other: &Self) -> (r: bool)
        requires
            self@.len() == other@.len(),
        ensures
            r == spec_contains(self@, other@),
    {
        let n = self.flags.len();
        let mut i: usize = 0;
        while i < n
            invariant
                n == self.flags@.len(),
                n == other.flags@.len(),
                i <= n,
                forall|j: int| 0 <= j < i ==> (other.flags@[j] ==> self.flags@[j]),
            decreases n - i,
        {
            if other.flags[i] && !self.flags[i] {
                return false;
            }
            i += 1;
        }
        true
    }

    /// Whether the two sets enable exactly the same capabilities.
    pub fn equals(&self, other: &Self) -> (r: bool)
        ensures
            r == (self@ == other@),
    {
        let n = self.flags.len();
        let m = other.flags.len();
        if n != m {
            proof {
                assert(self@.len() != other@.len());
            }
            return false;
        }
        let mut i: usize = 0;
        while i < n
            invariant
                n == self.flags@.len(),
                n == other.flags@.len(),
                i <= n,
                forall|j: int| 0 <= j < i ==> self.flags@[j] == other.flags@[j],
            decreases n - i,
        {
            if self.flags[i] != other.flags[i] {
                return false;
            }
            i += 1;
        }
        proof {
            assert(self@ =~= other@);
        }
        true
    }
}

/// Union is commutative: combining two sets of one scope in either order
/// enables the same capabilities.
pub proof fn lemma_union_commutative(x: Seq<bool>, y: Seq<bool>)
    requires
        x.len() == y.len(),
    ensures
        spec_union(x, y) == spec_union(y, x),
{
    assert(spec_union(x, y) =~= spec_union(y, x));
}

/// Intersection absorbs union: what `x` shares with `union(x, y)` is `x`
/// itself.
pub proof fn lemma_intersection_absorbs_union(x: Seq<bool>, y: Seq<bool>)
    requires
        x.len() == y.len(),
    ensures
        spec_intersection(x, spec_union(x, y)) == x,
{
    assert(spec_intersection(x, spec_union(x, y)) =~= x);
}

/// A set minus itself enables nothing.
pub proof fn lemma_difference_self_empty(x: Seq<bool>)
    ensures
        spec_is_empty(spec_difference(x, x)),
{
}

/// A union contains each of its sides.
pub proof fn lemma_union_contains_sides(x: Seq<bool>, y: Seq<bool>)
    requires
        x.len() == y.len(),
    ensures
        spec_contains(spec_union(x, y), x),
        spec_contains(spec_union(x, y), y),
{
}

/// Union and intersection are idempotent.
pub proof fn lemma_union_intersection_idempotent(x: Seq<bool>)
    ensures
        spec_union(x, x) == x,
        spec_intersection(x, x) == x,
{
    assert(spec_union(x, x) =~= x);
    assert(spec_intersection(x, x) =~= x);
}

/// Union restores at least what was taken away: `union(a, difference(b, a))`
/// contains `b`.
pub proof fn lemma_union_restores_difference(a: Seq<bool>, b: Seq<bool>)
    requires
        a.len() == b.len(),
    ensures
        spec_contains(spec_union(a, spec_difference(b, a)), b),
{
}

} // verus!
