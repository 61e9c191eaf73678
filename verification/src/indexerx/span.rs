//! The bounds of a scan.
//!
//! Bounds are JSON documents. An end that is unbounded is absent rather than a
//! sentinel.
use vstd::prelude::*;

verus! {

/// Which ends of a range are part of it.
#[derive(Debug, Clone, Copy, PartialEq, Eq, Structural)]
pub enum Inclusion {
    /// `low < x < high`
    Neither,
    /// `low <= x < high`
    Low,
    /// `low < x <= high`
    High,
    /// `low <= x <= high`
    Both,
}

impl Inclusion {
    /// The number that stands for it on the wire: bit 0 is the low end, bit 1
    /// the high one.
    pub open spec fn wire_value(self) -> u32 {
        match self {
            Inclusion::Neither => 0,
            Inclusion::Low => 1,
            Inclusion::High => 2,
            Inclusion::Both => 3,
        }
    }

    pub fn as_wire(self) -> (r: u32)
        ensures
            r == self.wire_value(),
    {
        match self {
            Inclusion::Neither => 0,
            Inclusion::Low => 1,
            Inclusion::High => 2,
            Inclusion::Both => 3,
        }
    }
}

impl Default for Inclusion {
    fn default() -> (r: Inclusion)
        ensures
            r == Inclusion::Both,
    {
        Inclusion::Both
    }
}

/// A bound on one index key position: JSON documents, `None` where it is
/// unbounded at that end.
#[derive(Debug, PartialEq, Eq)]
pub struct Filter {
    pub low: Option<Vec<u8>>,
    pub high: Option<Vec<u8>>,
    pub inclusion: Inclusion,
}

impl Filter {
    /// Bounded at both ends, inclusive.
    pub fn range(low: Vec<u8>, high: Vec<u8>) -> (r: Filter)
        ensures
            r == (Filter { low: Some(low), high: Some(high), inclusion: Inclusion::Both }),
    {
        Filter { low: Some(low), high: Some(high), inclusion: Inclusion::Both }
    }

    /// A single value, expressed as an inclusive range over it. This pins one
    /// position and leaves the rest free.
    pub fn eq(value: Vec<u8>) -> (r: Filter)
        ensures
            r.low is Some && r.low->0@ == value@,
            r.high is Some && r.high->0@ == value@,
            r.inclusion == Inclusion::Both,
    {
        let low: Vec<u8> = copied(&value);
        Filter::range(low, value)
    }

    /// Unbounded at both ends: every entry, at this position.
    pub fn any() -> (r: Filter)
        ensures
            r == (Filter { low: None, high: None, inclusion: Inclusion::Both }),
    {
        Filter { low: None, high: None, inclusion: Inclusion::Both }
    }

    pub fn with_inclusion(self, inclusion: Inclusion) -> (r: Filter)
        ensures
            r == (Filter { inclusion, ..self }),
    {
        Filter { low: self.low, high: self.high, inclusion }
    }
}

/// Whether both ends are unbounded, or the same bytes.
pub open spec fn same_bound(a: Option<Vec<u8>>, b: Option<Vec<u8>>) -> bool {
    match (a, b) {
        (Some(x), Some(y)) => x@ == y@,
        (None, None) => true,
        _ => false,
    }
}

fn copied_bound(bound: &Option<Vec<u8>>) -> (r: Option<Vec<u8>>)
    ensures
        same_bound(r, *bound),
{
    match bound {
        Some(value) => Some(copied(value)),
        None => None,
    }
}

impl Filter {
    /// Whether both bound a position alike.
    pub open spec fn same_as(&self, other: &Filter) -> bool {
        &&& same_bound(self.low, other.low)
        &&& same_bound(self.high, other.high)
        &&& self.inclusion == other.inclusion
    }
}

impl Clone for Filter {
    fn clone(&self) -> (r: Filter)
        ensures
            r.same_as(self),
    {
        Filter {
            low: copied_bound(&self.low),
            high: copied_bound(&self.high),
            inclusion: self.inclusion,
        }
    }
}

impl Default for Filter {
    fn default() -> (r: Filter)
        ensures
            r == (Filter { low: None, high: None, inclusion: Inclusion::Both }),
    {
        Filter::any()
    }
}

/// The same bytes again.
pub fn copied(value: &Vec<u8>) -> (r: Vec<u8>)
    ensures
        r@ == value@,
{
    let mut r: Vec<u8> = Vec::new();
    let mut i: usize = 0;
    while i < value.len()
        invariant
            i <= value.len(),
            r@ == value@.take(i as int),
        decreases value.len() - i,
    {
        r.push(value[i]);
        assert(value@.take(i + 1) =~= value@.take(i as int).push(value@[i as int]));
        i += 1;
    }
    assert(value@.take(value@.len() as int) =~= value@);
    r
}

/// One contiguous run of index entries.
///
/// Either a prefix of `filters`, or `equals` pinning the whole key. The
/// constructors keep the two apart.
#[derive(Debug, PartialEq, Eq)]
pub struct Scan {
    pub filters: Vec<Filter>,
    pub equals: Vec<Vec<u8>>,
}

impl Scan {
    /// At most one of the two ways to bound a scan is used.
    pub open spec fn unambiguous(&self) -> bool {
        self.filters@.len() == 0 || self.equals@.len() == 0
    }

    /// A run bounded by a prefix of the key positions.
    pub fn filtered(filters: Vec<Filter>) -> (r: Scan)
        ensures
            r.filters == filters,
            r.equals@.len() == 0,
            r.unambiguous(),
    {
        Scan { filters, equals: Vec::new() }
    }

    /// An exact match on the whole key, one JSON value per key position.
    pub fn equals(values: Vec<Vec<u8>>) -> (r: Scan)
        ensures
            r.filters@.len() == 0,
            r.equals == values,
            r.unambiguous(),
    {
        Scan { filters: Vec::new(), equals: values }
    }

    /// Every entry in the index: no filters and no key.
    pub fn all() -> (r: Scan)
        ensures
            r.filters@.len() == 0,
            r.equals@.len() == 0,
            r.unambiguous(),
    {
        Scan { filters: Vec::new(), equals: Vec::new() }
    }

    pub fn is_all(&self) -> (r: bool)
        ensures
            r == (self.filters@.len() == 0 && self.equals@.len() == 0),
    {
        self.filters.len() == 0 && self.equals.len() == 0
    }
}

impl Scan {
    /// Whether both bound a run alike.
    pub open spec fn same_as(&self, other: &Scan) -> bool {
        &&& self.filters@.len() == other.filters@.len()
        &&& forall|i: int|
            0 <= i < self.filters@.len() ==> (#[trigger] self.filters@[i]).same_as(
                &other.filters@[i],
            )
        &&& self.equals@.len() == other.equals@.len()
        &&& forall|i: int|
            0 <= i < self.equals@.len() ==> (#[trigger] self.equals@[i])@ == other.equals@[i]@
    }
}

impl Clone for Scan {
    fn clone(&self) -> (r: Scan)
        ensures
            r.same_as(self),
    {
        let mut filters: Vec<Filter> = Vec::new();
        let mut i: usize = 0;
        while i < self.filters.len()
            invariant
                i <= self.filters.len(),
                filters@.len() == i,
                forall|j: int|
                    0 <= j < i ==> (#[trigger] filters@[j]).same_as(&self.filters@[j]),
            decreases self.filters.len() - i,
        {
            filters.push(self.filters[i].clone());
            i += 1;
        }
        let mut equals: Vec<Vec<u8>> = Vec::new();
        let mut i: usize = 0;
        while i < self.equals.len()
            invariant
                i <= self.equals.len(),
                equals@.len() == i,
                forall|j: int| 0 <= j < i ==> (#[trigger] equals@[j])@ == self.equals@[j]@,
            decreases self.equals.len() - i,
        {
            equals.push(copied(&self.equals[i]));
            i += 1;
        }
        Scan { filters, equals }
    }
}

impl Default for Scan {
    fn default() -> (r: Scan)
        ensures
            r.filters@.len() == 0,
            r.equals@.len() == 0,
    {
        Scan::all()
    }
}

/// On the wire the low bit says whether the low end belongs to the range, and
/// the bit above it whether the high end does.
pub proof fn each_end_has_its_bit(inclusion: Inclusion)
    ensures
        inclusion.wire_value() < 4,
        inclusion.wire_value() % 2 == 1 <==> inclusion == Inclusion::Low || inclusion
            == Inclusion::Both,
        inclusion.wire_value() / 2 == 1 <==> inclusion == Inclusion::High || inclusion
            == Inclusion::Both,
{
}

/// A scan that is like another has the bounds of the other, byte for byte and
/// position by position.
pub proof fn a_scan_like_another_has_its_bounds(a: Scan, b: Scan, i: int)
    requires
        a.same_as(&b),
    ensures
        a.filters@.len() == b.filters@.len(),
        a.equals@.len() == b.equals@.len(),
        0 <= i < a.equals@.len() ==> a.equals@[i]@ == b.equals@[i]@,
        0 <= i < a.filters@.len() ==> a.filters@[i].inclusion == b.filters@[i].inclusion,
        0 <= i < a.filters@.len() ==> (a.filters@[i].low is Some <==> b.filters@[i].low is Some),
        0 <= i < a.filters@.len() && a.filters@[i].low is Some ==> a.filters@[i].low->0@
            == b.filters@[i].low->0@,
        0 <= i < a.filters@.len() ==> (a.filters@[i].high is Some <==> b.filters@[i].high is Some),
        0 <= i < a.filters@.len() && a.filters@[i].high is Some ==> a.filters@[i].high->0@
            == b.filters@[i].high->0@,
{
    if 0 <= i < a.filters@.len() {
        assert(a.filters@[i].same_as(&b.filters@[i]));
    }
    if 0 <= i < a.equals@.len() {
        assert(a.equals@[i]@ == b.equals@[i]@);
    }
}

} // verus!
