use vstd::prelude::*;

verus! {

/// A document that a [`Persistent`] store can hold: it has a starting value,
/// can be copied, and can be compared by value.
pub trait Persistable: Sized + View {
    /// The value of the document that nothing was stored for.
    spec fn initial_view() -> Self::V;

    fn initial() -> (r: Self)
        ensures
            r@ == Self::initial_view();

    fn snapshot(&self) -> (r: Self)
        ensures
            r@ == self@;

    fn same(&self, other: &Self) -> (r: bool)
        ensures
            r == (self@ == other@);
}

/// A document kept in memory together with the path of the file that holds
/// it. Every change goes through [`Persistent::write`], which says whether
/// the file has to be written again.
pub struct Persistent<T> {
    path: String,
    inner: T,
}

impl<T: Persistable> View for Persistent<T> {
    type V = T::V;

    closed spec fn view(&self) -> T::V {
        self.inner@
    }
}

impl<T: Persistable> Persistent<T> {
    pub closed spec fn path_view(&self) -> Seq<char> {
        self.path@
    }

    /// The document a store opens with: the stored one, else the initial one.
    pub open spec fn opened(stored: Option<T>) -> T::V {
        match stored {
            Some(t) => t@,
            None => T::initial_view(),
        }
    }

    /// A store for the file at `path`, holding what was read from it, or
    /// the initial document where there is no such file.
    pub fn open(path: String, stored: Option<T>) -> (r: Self)
        ensures
            r@ == Self::opened(stored),
            r.path_view() == path@,
    {
        let inner = match stored {
            Some(t) => t,
            None => T::initial(),
        };
        Persistent { path, inner }
    }

    pub fn path(&self) -> (r: &String)
        ensures
            r@ == self.path_view(),
    {
        &self.path
    }

    /// The document as it stands.
    pub fn read(&self) -> (r: &T)
        ensures
            r@ == self@,
    {
        &self.inner
    }

    /// Replaces the document with `next`. The result says whether the file
    /// must be written: only when `next` differs from what was held.
    pub fn write(&mut self, next: T) -> (changed: bool)
        ensures
            final(self)@ == next@,
            final(self).path_view() == old(self).path_view(),
            changed == (old(self)@ != next@),
    {
        let changed = !self.inner.same(&next);
        self.inner = next;
        changed
    }
}

/// A store reopened from the document that a write left in its file holds
/// that document again.
pub proof fn lemma_reopen_after_write<T: Persistable>(next: T, written: Persistent<T>, stored: T)
    requires
        written@ == next@,
        stored@ == written@,
    ensures
        Persistent::<T>::opened(Some(stored)) == next@,
{
}

} // verus!
