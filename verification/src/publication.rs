//! Publication of serving generations: one pointer for admission, execution and management,
//! swapped only once a complete generation is prepared.
//!
//! Generations are numbered in the order they were built. At most one is active, and it is the
//! current one; requests are captured only while the controller is available, which implies
//! the current generation is active.
use vstd::prelude::*;

verus! {

/// The publication pointer and the active flag of every generation built so far.
pub struct PublicationController {
    available: bool,
    current: usize,
    active: Vec<bool>,
}

/// The publication state as a model.
pub struct PublicationView {
    pub available: bool,
    pub current: nat,
    pub active: Seq<bool>,
}

impl View for PublicationController {
    type V = PublicationView;

    closed spec fn view(&self) -> PublicationView {
        PublicationView { available: self.available, current: self.current as nat, active: self.active@ }
    }
}

impl PublicationView {
    /// The current generation exists, no other generation is active, and an available
    /// controller serves an active current generation.
    pub open spec fn wf(self) -> bool {
        &&& self.current < self.active.len()
        &&& forall|i: int| 0 <= i < self.active.len() && i != self.current ==> !(#[trigger] self.active[i])
        &&& self.available ==> self.active[self.current as int]
    }
}

impl PublicationController {
    /// Publishes the first generation, active and available.
    pub fn bootstrap() -> (c: Self)
        ensures
            c@.wf(),
            c@.available,
            c@.current == 0,
            c@.active == seq![true],
    {
        let mut active = Vec::new();
        active.push(true);
        let c = PublicationController { available: true, current: 0, active };
        proof {
            assert(c@.active =~= seq![true]);
        }
        c
    }

    /// Records one prepared, not yet published generation and returns its number.
    pub fn prepare(&mut self) -> (g: usize)
        requires
            old(self)@.wf(),
            old(self)@.active.len() < usize::MAX,
        ensures
            final(self)@.wf(),
            g == old(self)@.active.len(),
            final(self)@ == (PublicationView { active: old(self)@.active.push(false), ..old(self)@ }),
    {
        let g = self.active.len();
        self.active.push(false);
        g
    }

    /// Publishes prepared generation `g`: the current one is retired, `g` becomes current and
    /// active, and the controller is available.
    pub fn commit(&mut self, g: usize)
        requires
            old(self)@.wf(),
            g < old(self)@.active.len(),
        ensures
            final(self)@.wf(),
            final(self)@.available,
            final(self)@.current == g,
            final(self)@.active == old(self)@.active.update(old(self)@.current as int, false).update(g as int, true),
    {
        let c = self.current;
        self.active.set(c, false);
        self.active.set(g, true);
        self.current = g;
        self.available = true;
    }

    /// Begins an in-place reapplication: admission stops and the current generation is
    /// retired until a rebuilt generation is committed.
    pub fn begin_apply(&mut self)
        requires
            old(self)@.wf(),
        ensures
            final(self)@.wf(),
            !final(self)@.available,
            final(self)@.current == old(self)@.current,
            final(self)@.active == old(self)@.active.update(old(self)@.current as int, false),
            forall|i: int| 0 <= i < final(self)@.active.len() ==> !(#[trigger] final(self)@.active[i]),
    {
        let c = self.current;
        self.active.set(c, false);
        self.available = false;
    }

    /// The generation a request is captured on, only while admission is open.
    pub fn try_capture(&self) -> (g: Option<usize>)
        requires
            self@.wf(),
        ensures
            g == if self@.available {
                Some(self@.current as usize)
            } else {
                None::<usize>
            },
            g matches Some(n) ==> self@.active[n as int],
    {
        if self.available {
            Some(self.current)
        } else {
            None
        }
    }

    /// Whether admission is open.
    pub fn accepting_requests(&self) -> (r: bool)
        ensures
            r == self@.available,
    {
        self.available
    }

    /// The current generation, whatever the admission state.
    pub fn capture(&self) -> (g: usize)
        ensures
            g == self@.current,
    {
        self.current
    }
}

/// While admission is open, exactly the current generation is active.
pub proof fn lemma_exactly_the_published_generation_is_active(v: PublicationView)
    requires
        v.wf(),
        v.available,
    ensures
        forall|i: int| 0 <= i < v.active.len() ==> (#[trigger] v.active[i] <==> i == v.current),
{
}

} // verus!
