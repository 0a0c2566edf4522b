use vstd::prelude::*;

verus! {

/// Slot storage for IR nodes. A handle is the index of a slot. A slot
/// that has been deallocated stays empty for the life of the arena, so
/// a handle is never reused: a stale handle reads as absent, never as
/// another node's data.
pub struct Arena<T> {
    slots: Vec<Option<T>>,
}

impl<T> View for Arena<T> {
    type V = Seq<Option<T>>;

    closed spec fn view(&self) -> Seq<Option<T>> {
        self.slots@
    }
}

impl<T> Arena<T> {
    /// Whether handle `i` names a live slot.
    pub open spec fn live(&self, i: usize) -> bool {
        i < self@.len() && self@[i as int] is Some
    }

    /// The data stored at a live handle.
    pub open spec fn at(&self, i: usize) -> T {
        self@[i as int].unwrap()
    }

    pub fn new() -> (r: Self)
        ensures
            r@ == Seq::<Option<T>>::empty(),
    {
        Arena { slots: Vec::new() }
    }

    /// Stores `data` in a fresh slot and returns its handle.
    pub fn allocate(&mut self, data: T) -> (i: usize)
        requires
            old(self)@.len() < usize::MAX,
        ensures
            i == old(self)@.len(),
            final(self)@ == old(self)@.push(Some(data)),
    {
        let i = self.slots.len();
        self.slots.push(Some(data));
        i
    }

    pub fn is_valid(&self, i: usize) -> (r: bool)
        ensures
            r == self.live(i),
    {
        i < self.slots.len() && self.slots[i].is_some()
    }

    /// Reads a slot; `None` when the handle is absent.
    pub fn try_deref(&self, i: usize) -> (r: Option<&T>)
        ensures
            r is Some <==> self.live(i),
            r is Some ==> *r.unwrap() == self.at(i),
    {
        if i < self.slots.len() {
            match &self.slots[i] {
                Some(d) => Some(d),
                None => None,
            }
        } else {
            None
        }
    }

    /// What `try_dealloc(i)` leaves and returns: a live slot is emptied and
    /// its data returned; on an absent one, `None`, with nothing changed.
    pub open spec fn deallocated(self, after: Self, i: usize, r: Option<T>) -> bool {
        &&& r is Some <==> self.live(i)
        &&& self.live(i) ==> r == self@[i as int] && after@ == self@.update(i as int, None)
        &&& !self.live(i) ==> after@ == self@
    }

    /// Empties a slot and returns what it held; `None`, with nothing
    /// changed, when the handle is already absent.
    pub fn try_dealloc(&mut self, i: usize) -> (r: Option<T>)
        ensures
            old(self).deallocated(*final(self), i, r),
    {
        if i < self.slots.len() {
            let mut out: Option<T> = None;
            std::mem::swap(&mut self.slots[i], &mut out);
            assert(self@ =~= old(self)@.update(i as int, None));
            assert(out is Some <==> old(self).live(i));
            assert(old(self).live(i) ==> out == old(self)@[i as int]);
            assert(!old(self).live(i) ==> self@ == old(self)@);
            out
        } else {
            None
        }
    }

    /// A mutable borrow of a slot's data; `None` when the handle is absent.
    pub fn try_deref_mut(&mut self, i: usize) -> (r: Option<&mut T>)
        ensures
            r is Some <==> old(self).live(i),
            r is Some ==> *r.unwrap() == old(self).at(i) && final(self)@ == old(self)@.update(
                i as int,
                Some(*final(r.unwrap())),
            ),
            r is None ==> final(self)@ == old(self)@,
    {
        if i < self.slots.len() {
            self.slots[i].as_mut()
        } else {
            None
        }
    }

    /// Overwrites the data of a live slot.
    pub fn put(&mut self, i: usize, data: T)
        requires
            old(self).live(i),
        ensures
            final(self)@ == old(self)@.update(i as int, Some(data)),
    {
        self.slots.set(i, Some(data));
    }
}

} // verus!
