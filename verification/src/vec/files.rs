//! The backing file: opening a vector over one, closing it, letting go of
//! it, and moving it.
use vstd::prelude::*;
use super::{CloseError, Closing, FileVec, OnClose, forget_items};
use crate::capacity::max_capacity;

verus! {

impl<E> FileVec<E> {
    /// A vector over a backing file that already holds `items`: the buffer
    /// is exactly that large, and the file persists on close.
    pub fn opened(path: String, items: Vec<E>) -> (v: Self)
        requires
            vstd::layout::size_of::<E>() > 0,
            items@.len() <= max_capacity::<E>(),
        ensures
            v.wf(),
            Self::reopened(path@, items@, v),
    {
        vstd::layout::layout_for_type_is_valid::<E>();
        let cap: usize = items.len();
        FileVec { items, cap, path: Some(path), closebehavior: OnClose::Persist, serial: false }
    }

    /// Closes the backing file: the vector is left empty, without a buffer or
    /// a backing file (it picks a fresh one when it next needs room), and what
    /// the close behavior asks for is handed back; none if there was no
    /// backing file. A vector with a backing file that is to serialize its
    /// items on close must have a serialization set up.
    pub fn close(&mut self) -> (c: Option<Closing<E>>)
        requires
            old(self).wf(),
            old(self).on_close() is Serialize && old(self).backing() is Some
                ==> old(self).serializes(),
        ensures
            final(self).wf(),
            old(self).closed(c, *final(self)),
            c matches Some(cl) ==> {
                &&& cl.behavior == old(self).on_close()
                &&& old(self).backing() == Some(cl.path@)
                &&& cl.items@ == old(self)@
            },
            c is None <==> old(self).backing() is None,
    {
        let mut path: Option<String> = None;
        std::mem::swap(&mut self.path, &mut path);
        self.cap = 0;
        match path {
            None => {
                self.items.clear();
                None
            },
            Some(path) => {
                let mut items: Vec<E> = Vec::new();
                std::mem::swap(&mut self.items, &mut items);
                Some(Closing { path, items, behavior: self.closebehavior.clone() })
            },
        }
    }

    /// Closes the vector as `close` does, where it can be closed; a vector
    /// with a backing file that is to serialize its items on close but has no
    /// serialization set up is refused and left as it is.
    pub fn try_close(&mut self) -> (r: Result<Option<Closing<E>>, CloseError>)
        requires
            old(self).wf(),
        ensures
            final(self).wf(),
            r is Err <==> (old(self).on_close() is Serialize && old(self).backing() is Some
                && !old(self).serializes()),
            r matches Err(e) ==> e == CloseError::SerializationNotEnabled && *final(self)
                == *old(self),
            r matches Ok(c) ==> old(self).closed(c, *final(self)),
            r matches Ok(Some(cl)) ==> {
                &&& cl.behavior == old(self).on_close()
                &&& old(self).backing() == Some(cl.path@)
                &&& cl.items@ == old(self)@
            },
    {
        let refused: bool = match &self.closebehavior {
            OnClose::Serialize(_) => self.path.is_some() && !self.serial,
            _ => false,
        };
        if refused {
            return Err(CloseError::SerializationNotEnabled);
        }
        Ok(self.close())
    }

    /// Lets go of the items and the backing file without dropping the items
    /// or closing the file: the vector is left empty, without a buffer or a
    /// backing file.
    pub fn leak(&mut self)
        requires
            old(self).wf(),
        ensures
            final(self).wf(),
            final(self)@ == Seq::<E>::empty(),
            final(self).cap() == 0,
            final(self).backing() is None,
            final(self).on_close() == old(self).on_close(),
            final(self).serializes() == old(self).serializes(),
    {
        let mut items: Vec<E> = Vec::new();
        std::mem::swap(&mut self.items, &mut items);
        forget_items(items);
        self.path = None;
        self.cap = 0;
    }

    /// Sets the backing file to `path` and hands back the one there was: the
    /// caller moves that file to `path`, or, where there was none, creates it
    /// with room for one item.
    pub fn set_path(&mut self, path: String) -> (previous: Option<String>)
        requires
            old(self).wf(),
        ensures
            final(self).wf(),
            final(self)@ == old(self)@,
            final(self).backing() == Some(path@),
            final(self).on_close() == old(self).on_close(),
            final(self).serializes() == old(self).serializes(),
            previous is None <==> old(self).backing() is None,
            previous is Some ==> old(self).backing() == Some(previous->0@),
            final(self).cap() == if old(self).backing() is None {
                1
            } else {
                old(self).cap()
            },
    {
        proof { self.lemma_wf(); }
        let mut previous: Option<String> = Some(path);
        std::mem::swap(&mut self.path, &mut previous);
        if previous.is_none() {
            self.cap = 1;
        }
        previous
    }
}

} // verus!
