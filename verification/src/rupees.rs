use vstd::prelude::*;

verus! {

/// A single rupee, can be taken from or added to sets.
#[derive(Debug, Clone, Copy)]
pub struct Rupee;

/// A set of rupees: a non-negative counter of fungible spending units.
#[derive(Debug, Clone, Copy)]
pub struct RupeeSet {
    count: i8,
}

impl RupeeSet {
    /// The number of rupees held, as a mathematical integer.
    pub closed spec fn spec_count(self) -> int {
        self.count as int
    }

    /// A rupee set never holds a negative number of rupees.
    pub open spec fn wf(self) -> bool {
        self.spec_count() >= 0
    }

    /// Create a new, empty set of rupees.
    pub fn empty() -> (r: Self)
        ensures
            r.wf(),
            r.spec_count() == 0,
    {
        Self::new(0)
    }

    /// Create a new set of rupees.
    pub fn new(count: i8) -> (r: Self)
        requires
            count >= 0,
        ensures
            r.wf(),
            r.spec_count() == count,
    {
        Self { count }
    }

    /// Get the number of rupees in this set.
    pub fn count(&self) -> (r: i8)
        ensures
            r == self.spec_count(),
    {
        self.count
    }

    /// Add all the rupees from another bag to this one.
    pub fn add<T: IntoRupeeSet>(&mut self, from: T)
        requires
            old(self).wf(),
            from.rupees_wf(),
            old(self).spec_count() + from.spec_rupees() <= i8::MAX,
        ensures
            final(self).wf(),
            final(self).spec_count() == old(self).spec_count() + from.spec_rupees(),
    {
        let source = from.into_set();
        self.count = self.count + source.count;
    }

    /// Take up to `count` rupees out of the bag: if fewer are held, all of
    /// them leave and the bag ends empty; otherwise exactly `count` leave.
    pub fn take_up_to(&mut self, count: i8) -> (taken: RupeeSet)
        requires
            old(self).wf(),
            count >= 0,
        ensures
            final(self).wf(),
            taken.wf(),
            taken.spec_count() == if count <= old(self).spec_count() {
                count as int
            } else {
                old(self).spec_count()
            },
            final(self).spec_count() == old(self).spec_count() - taken.spec_count(),
    {
        if count >= self.count {
            self.take_all()
        } else {
            self.count = self.count - count;
            RupeeSet { count }
        }
    }

    /// Try to take exactly `count` rupees out of the bag. If `count` is too
    /// high, returns `None`, and `self` is unaffected.
    pub fn take_exactly(&mut self, count: i8) -> (r: Option<RupeeSet>)
        requires
            old(self).wf(),
            count >= 0,
        ensures
            final(self).wf(),
            r is Some <==> count <= old(self).spec_count(),
            r is Some ==> {
                &&& r->0.wf()
                &&& r->0.spec_count() == count
                &&& final(self).spec_count() == old(self).spec_count() - count
            },
            r is None ==> *final(self) == *old(self),
    {
        if count > self.count {
            None
        } else {
            self.count = self.count - count;
            Some(RupeeSet { count })
        }
    }

    /// Try to take a single rupee out of this bag.
    pub fn take_one(&mut self) -> (r: Option<Rupee>)
        requires
            old(self).wf(),
        ensures
            final(self).wf(),
            r is Some <==> old(self).spec_count() >= 1,
            r is Some ==> final(self).spec_count() == old(self).spec_count() - 1,
            r is None ==> *final(self) == *old(self),
    {
        match self.take_exactly(1) {
            Some(_set) => Some(Rupee),
            None => None,
        }
    }

    /// Take all the rupees out of this bag, leaving it empty.
    pub fn take_all(&mut self) -> (taken: RupeeSet)
        requires
            old(self).wf(),
        ensures
            final(self).wf(),
            taken.wf(),
            taken.spec_count() == old(self).spec_count(),
            final(self).spec_count() == 0,
    {
        let taken = RupeeSet { count: self.count };
        self.count = 0;
        taken
    }

    /// Verify that this bag has been fully drained: succeeds only if it holds
    /// no rupees; otherwise fails, handing back the non-empty remainder.
    pub fn done(self) -> (r: Result<(), RupeeSet>)
        ensures
            r is Ok <==> self.spec_count() == 0,
            r is Err ==> r->Err_0 == self,
    {
        if self.count == 0 {
            Ok(())
        } else {
            Err(self)
        }
    }
}

/// Values that can be turned into a set of rupees.
pub trait IntoRupeeSet: Sized {
    /// How many rupees this value stands for.
    spec fn spec_rupees(self) -> int;

    /// Whether this value is a well-formed source of rupees.
    spec fn rupees_wf(self) -> bool;

    fn into_set(self) -> (r: RupeeSet)
        requires
            self.rupees_wf(),
        ensures
            r.wf(),
            r.spec_count() == self.spec_rupees(),
    ;
}

impl IntoRupeeSet for Rupee {
    open spec fn spec_rupees(self) -> int {
        1
    }

    open spec fn rupees_wf(self) -> bool {
        true
    }

    fn into_set(self) -> (r: RupeeSet) {
        RupeeSet { count: 1 }
    }
}

impl IntoRupeeSet for RupeeSet {
    open spec fn spec_rupees(self) -> int {
        self.spec_count()
    }

    open spec fn rupees_wf(self) -> bool {
        self.wf()
    }

    fn into_set(self) -> (r: RupeeSet) {
        self
    }
}

} // verus!
