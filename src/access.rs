use vstd::prelude::*;

verus! {

/// One access that a piece of code needs: a component type or a resource
/// type, identified by a key, read or written.
#[derive(PartialEq, Eq, Structural, Clone, Copy, Debug)]
pub enum Access {
    ReadComponent(u64),
    WriteComponent(u64),
    ReadResource(u64),
    WriteResource(u64),
}

impl Access {
    /// Whether this access is on a resource rather than a component.
    pub open spec fn on_resource(self) -> bool {
        self is ReadResource || self is WriteResource
    }

    /// The key of the type that this access names.
    pub open spec fn key(self) -> u64 {
        match self {
            Access::ReadComponent(k) => k,
            Access::WriteComponent(k) => k,
            Access::ReadResource(k) => k,
            Access::WriteResource(k) => k,
        }
    }

    /// Whether this access writes.
    pub open spec fn writes(self) -> bool {
        self is WriteComponent || self is WriteResource
    }

    /// Both accesses name the same type (same key, same kind).
    pub open spec fn same_target(self, other: Access) -> bool {
        self.on_resource() == other.on_resource() && self.key() == other.key()
    }

    /// Two accesses conflict when they name the same type and one writes.
    pub open spec fn conflicts_with(self, other: Access) -> bool {
        self.same_target(other) && (self.writes() || other.writes())
    }

    /// `self`, when held, grants `want`: a read is granted by a read or a
    /// write of the same type, a write only by a write.
    pub open spec fn covers(self, want: Access) -> bool {
        self.same_target(want) && (self.writes() || !want.writes())
    }

    pub fn is_resource(&self) -> (r: bool)
        ensures
            r == self.on_resource(),
    {
        match self {
            Access::ReadResource(_) | Access::WriteResource(_) => true,
            _ => false,
        }
    }

    pub fn type_key(&self) -> (r: u64)
        ensures
            r == self.key(),
    {
        match self {
            Access::ReadComponent(k) => *k,
            Access::WriteComponent(k) => *k,
            Access::ReadResource(k) => *k,
            Access::WriteResource(k) => *k,
        }
    }

    pub fn is_write(&self) -> (r: bool)
        ensures
            r == self.writes(),
    {
        match self {
            Access::WriteComponent(_) | Access::WriteResource(_) => true,
            _ => false,
        }
    }

    /// Whether holding `self` grants `want`.
    pub fn grants(&self, want: &Access) -> (r: bool)
        ensures
            r == self.covers(*want),
    {
        self.is_resource() == want.is_resource() && self.type_key() == want.type_key() && (
        self.is_write() || !want.is_write())
    }

    /// Whether the two accesses conflict.
    pub fn conflicts(&self, other: &Access) -> (r: bool)
        ensures
            r == self.conflicts_with(*other),
    {
        self.is_resource() == other.is_resource() && self.type_key() == other.type_key() && (
        self.is_write() || other.is_write())
    }
}

/// Some element of `s` grants `want`.
pub open spec fn has_spec(s: Seq<Access>, want: Access) -> bool {
    exists|i: int| 0 <= i < s.len() && #[trigger] s[i].covers(want)
}

/// Every element of `a` is granted by some element of `b`.
pub open spec fn subset_spec(a: Seq<Access>, b: Seq<Access>) -> bool {
    forall|i: int| 0 <= i < a.len() ==> has_spec(b, #[trigger] a[i])
}

/// Some element of `b` conflicts with `x`.
pub open spec fn hits_spec(x: Access, b: Seq<Access>) -> bool {
    exists|j: int| 0 <= j < b.len() && x.conflicts_with(#[trigger] b[j])
}

/// Some pair across `a` and `b` conflicts.
pub open spec fn conflicts_spec(a: Seq<Access>, b: Seq<Access>) -> bool {
    exists|i: int| 0 <= i < a.len() && hits_spec(#[trigger] a[i], b)
}

/// A set of access descriptors. Order and repetition carry no meaning: every
/// question asked of a set depends only on which descriptors it holds.
#[derive(Clone, Debug)]
pub struct AccessSet {
    pub items: Vec<Access>,
}

impl View for AccessSet {
    type V = Seq<Access>;

    open spec fn view(&self) -> Seq<Access> {
        self.items@
    }
}

impl AccessSet {
    /// The empty set: it grants nothing.
    pub fn empty() -> (r: AccessSet)
        ensures
            r@ == Seq::<Access>::empty(),
    {
        AccessSet { items: Vec::new() }
    }

    /// The set holding exactly the given descriptors.
    pub fn from_vec(items: Vec<Access>) -> (r: AccessSet)
        ensures
            r@ == items@,
    {
        AccessSet { items }
    }

    /// Adds one descriptor.
    pub fn with(self, a: Access) -> (r: AccessSet)
        ensures
            r@ == self@.push(a),
    {
        let mut items = self.items;
        items.push(a);
        AccessSet { items }
    }

    /// The union of two sets.
    pub fn union(&self, other: &AccessSet) -> (r: AccessSet)
        ensures
            r@ == self@ + other@,
    {
        let mut items = self.items.clone();
        let mut i: usize = 0;
        while i < other.items.len()
            invariant
                0 <= i <= other@.len(),
                items@ == self@ + other@.subrange(0, i as int),
            decreases other@.len() - i,
        {
            items.push(other.items[i]);
            i = i + 1;
            assert(items@ =~= self@ + other@.subrange(0, i as int));
        }
        assert(other@.subrange(0, other@.len() as int) =~= other@);
        AccessSet { items }
    }

    /// A copy of the set.
    pub fn duplicate(&self) -> (r: AccessSet)
        ensures
            r@ == self@,
    {
        AccessSet { items: self.items.clone() }
    }

    pub fn len(&self) -> (r: usize)
        ensures
            r == self@.len(),
    {
        self.items.len()
    }

    /// Whether some descriptor of the set grants `want`.
    pub fn has(&self, want: &Access) -> (r: bool)
        ensures
            r == has_spec(self@, *want),
    {
        let mut i: usize = 0;
        while i < self.items.len()
            invariant
                0 <= i <= self@.len(),
                forall|k: int| 0 <= k < i ==> !(#[trigger] self@[k]).covers(*want),
            decreases self@.len() - i,
        {
            if self.items[i].grants(want) {
                return true;
            }
            i = i + 1;
        }
        false
    }

    /// Whether every descriptor of `self` is granted by `other`.
    pub fn is_subset(&self, other: &AccessSet) -> (r: bool)
        ensures
            r == subset_spec(self@, other@),
    {
        let mut i: usize = 0;
        while i < self.items.len()
            invariant
                0 <= i <= self@.len(),
                forall|k: int| 0 <= k < i ==> has_spec(other@, #[trigger] self@[k]),
            decreases self@.len() - i,
        {
            if !other.has(&self.items[i]) {
                return false;
            }
            i = i + 1;
        }
        true
    }

    /// Whether some descriptor of `self` conflicts with `x`.
    fn hits(x: &Access, set: &AccessSet) -> (r: bool)
        ensures
            r == hits_spec(*x, set@),
    {
        let mut j: usize = 0;
        while j < set.items.len()
            invariant
                0 <= j <= set@.len(),
                forall|k: int| 0 <= k < j ==> !x.conflicts_with(#[trigger] set@[k]),
            decreases set@.len() - j,
        {
            if x.conflicts(&set.items[j]) {
                return true;
            }
            j = j + 1;
        }
        false
    }

    /// Whether some descriptor of `self` conflicts with some descriptor of
    /// `other`.
    pub fn conflicts(&self, other: &AccessSet) -> (r: bool)
        ensures
            r == conflicts_spec(self@, other@),
    {
        let mut i: usize = 0;
        while i < self.items.len()
            invariant
                0 <= i <= self@.len(),
                forall|k: int| 0 <= k < i ==> !hits_spec(#[trigger] self@[k], other@),
            decreases self@.len() - i,
        {
            if AccessSet::hits(&self.items[i], other) {
                return true;
            }
            i = i + 1;
        }
        false
    }
}

/// Every descriptor set is a subset of itself.
pub proof fn lemma_subset_reflexive(a: Seq<Access>)
    ensures
        subset_spec(a, a),
{
    assert forall|i: int| 0 <= i < a.len() implies has_spec(a, #[trigger] a[i]) by {
        assert(a[i].covers(a[i]));
    }
}

/// Covering is transitive on single descriptors.
proof fn lemma_covers_transitive(x: Access, y: Access, z: Access)
    requires
        y.covers(x),
        z.covers(y),
    ensures
        z.covers(x),
{
}

/// If `a` is a subset of `b` and `b` of `c`, then `a` is a subset of `c`.
pub proof fn lemma_subset_transitive(a: Seq<Access>, b: Seq<Access>, c: Seq<Access>)
    requires
        subset_spec(a, b),
        subset_spec(b, c),
    ensures
        subset_spec(a, c),
{
    assert forall|i: int| 0 <= i < a.len() implies has_spec(c, #[trigger] a[i]) by {
        assert(has_spec(b, a[i]));
        let j = choose|j: int| 0 <= j < b.len() && #[trigger] b[j].covers(a[i]);
        assert(has_spec(c, b[j]));
        let k = choose|k: int| 0 <= k < c.len() && #[trigger] c[k].covers(b[j]);
        lemma_covers_transitive(a[i], b[j], c[k]);
    }
}

/// Conflict between two descriptor sets does not depend on their order.
pub proof fn lemma_conflicts_symmetric(a: Seq<Access>, b: Seq<Access>)
    ensures
        conflicts_spec(a, b) == conflicts_spec(b, a),
{
    if conflicts_spec(a, b) {
        let i = choose|i: int| 0 <= i < a.len() && hits_spec(#[trigger] a[i], b);
        let j = choose|j: int| 0 <= j < b.len() && a[i].conflicts_with(#[trigger] b[j]);
        assert(b[j].conflicts_with(a[i]));
        assert(hits_spec(b[j], a));
    }
    if conflicts_spec(b, a) {
        let j = choose|j: int| 0 <= j < b.len() && hits_spec(#[trigger] b[j], a);
        let i = choose|i: int| 0 <= i < a.len() && b[j].conflicts_with(#[trigger] a[i]);
        assert(a[i].conflicts_with(b[j]));
        assert(hits_spec(a[i], b));
    }
}

} // verus!
