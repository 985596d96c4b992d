//! The vector that persists to a backing file: its items, the capacity it
//! keeps room for, and what becomes of the backing file when it is closed.
use vstd::prelude::*;
use crate::capacity::{
    can_reserve, can_reserve_exact, max_capacity, required, reserve_capacity,
    reserve_exact_capacity, reserve_exact_target, reserve_target,
};
use crate::iter::{Drain, ExtractIf};
use crate::path::{generate_path, temp_path};
use crate::range::{IndexRange, range_fits, range_start, range_stop};

mod arrays;
mod files;
mod filter;

pub use filter::deduplicated;
mod grow;

verus! {

/// What happens to the backing file when the vector is closed or dropped.
#[derive(Debug)]
pub enum OnClose {
    /// Leave the backing file as it is on the disk.
    Persist,
    /// Delete the backing file (the default).
    Delete,
    /// Store the items through the vector's serialization, in the given file
    /// or, where none is given, in the backing file's place.
    Serialize(Option<String>),
}

impl OnClose {
    /// The close behavior that serializes into the file at `path`.
    pub fn serialize(path: &str) -> (r: Self)
        ensures
            r matches OnClose::Serialize(Some(p)) && p@ == path@,
    {
        OnClose::Serialize(Some(String::from_str(path)))
    }
}

impl Clone for OnClose {
    fn clone(&self) -> (r: Self)
        ensures
            r == *self,
    {
        match self {
            OnClose::Persist => OnClose::Persist,
            OnClose::Delete => OnClose::Delete,
            OnClose::Serialize(None) => OnClose::Serialize(None),
            OnClose::Serialize(Some(p)) => OnClose::Serialize(Some(p.clone())),
        }
    }
}

impl Default for OnClose {
    fn default() -> (r: Self)
        ensures
            r == OnClose::Delete,
    {
        OnClose::Delete
    }
}

/// Serialization of the items as JSON, one value per line, for
/// `OnClose::Serialize`.
#[derive(Clone, Copy, Debug, Default)]
pub struct SerialJson {
    pretty: bool,
}

impl SerialJson {
    /// Whether the JSON is written pretty-printed.
    pub closed spec fn is_pretty(&self) -> bool {
        self.pretty
    }

    /// A JSON serialization, pretty-printed or compact.
    pub fn new(pretty: bool) -> (r: Self)
        ensures
            r.is_pretty() == pretty,
    {
        SerialJson { pretty }
    }

    /// Whether the JSON is written pretty-printed.
    pub fn pretty(&self) -> (b: bool)
        ensures
            b == self.is_pretty(),
    {
        self.pretty
    }
}

/// Serialization of the items as MessagePack, for `OnClose::Serialize`.
#[derive(Clone, Copy, Debug, Default)]
pub struct SerialRMP;

impl SerialRMP {
    /// A MessagePack serialization.
    pub fn new() -> (r: Self)
        ensures
            r == SerialRMP,
    {
        SerialRMP
    }
}

/// The view of a backing path: the characters of its name, if there is one.
pub open spec fn path_view(p: Option<String>) -> Option<Seq<char>> {
    match p {
        Some(s) => Some(s@),
        None => None,
    }
}

/// What the backing path is after a request that may have made the buffer
/// grow: a vector without a backing file that grows gets a freshly picked
/// one; otherwise the path stays.
pub open spec fn backing_after(
    before: Option<Seq<char>>,
    grew: bool,
    after: Option<Seq<char>>,
) -> bool {
    if grew && before is None {
        exists|n: u64| after == Some(#[trigger] temp_path(n))
    } else {
        after == before
    }
}

/// What closing a vector that had a backing file hands back: the file, the
/// items it held, and what is to become of it. The caller performs it: it
/// writes the items into the file and keeps it (`Persist`), deletes it
/// (`Delete`), or stores the items through the vector's serialization
/// (`Serialize`).
#[derive(Debug)]
pub struct Closing<E> {
    /// The backing file.
    pub path: String,
    /// The items the vector held.
    pub items: Vec<E>,
    /// What is to become of the backing file.
    pub behavior: OnClose,
}

/// Why a vector was not closed.
#[derive(Debug, PartialEq, Eq, Structural)]
pub enum CloseError {
    /// It is to serialize its items on close, but no serialization has been
    /// set up.
    SerializationNotEnabled,
}

/// Calls `core::mem::forget` on `items`: they are never dropped.
#[verifier::external_body]
fn forget_items<E>(items: Vec<E>) {
    core::mem::forget(items)
}

/// A vector that persists its items to a backing file when it is closed.
///
/// The items are held in memory; the vector also keeps the capacity of its
/// buffer, the name of its backing file (picked when the vector first needs
/// room), what becomes of that file on close, and whether a serialization has
/// been set up for `OnClose::Serialize`.
#[derive(Debug)]
pub struct FileVec<E> {
    items: Vec<E>,
    cap: usize,
    path: Option<String>,
    closebehavior: OnClose,
    serial: bool,
}

impl<E> View for FileVec<E> {
    type V = Seq<E>;

    closed spec fn view(&self) -> Seq<E> {
        self.items@
    }
}

impl<E> FileVec<E> {
    /// How many items the backing buffer holds room for.
    pub closed spec fn cap(&self) -> nat {
        self.cap as nat
    }

    /// The name of the backing file, if the vector has one.
    pub closed spec fn backing(&self) -> Option<Seq<char>> {
        path_view(self.path)
    }

    /// What happens to the backing file when the vector is closed.
    pub closed spec fn on_close(&self) -> OnClose {
        self.closebehavior
    }

    /// Whether a serialization has been set up, as `OnClose::Serialize`
    /// needs.
    pub closed spec fn serializes(&self) -> bool {
        self.serial
    }

    /// Same buffer, backing file, close behavior and serialization as
    /// `other`.
    pub open spec fn same_buffer(self, other: Self) -> bool {
        &&& self.cap() == other.cap()
        &&& self.backing() == other.backing()
        &&& self.on_close() == other.on_close()
        &&& self.serializes() == other.serializes()
    }

    /// The buffer, backing file, close behavior and serialization that
    /// `reserve(additional)` leaves, starting from `before`.
    pub open spec fn reserved_from(self, before: Self, additional: nat) -> bool {
        &&& self.cap() == reserve_target(before.cap(), before@.len(), additional)
        &&& backing_after(
            before.backing(),
            required(before@.len(), additional) > before.cap(),
            self.backing(),
        )
        &&& self.on_close() == before.on_close()
        &&& self.serializes() == before.serializes()
    }

    /// The buffer, backing file, close behavior and serialization that
    /// `reserve_exact(additional)` leaves, starting from `before`.
    pub open spec fn reserved_exact_from(self, before: Self, additional: nat) -> bool {
        &&& self.cap() == reserve_exact_target(before.cap(), before@.len(), additional)
        &&& backing_after(
            before.backing(),
            required(before@.len(), additional) > before.cap(),
            self.backing(),
        )
        &&& self.on_close() == before.on_close()
        &&& self.serializes() == before.serializes()
    }

    /// `after` is what `push(item)` leaves of `self`.
    pub open spec fn pushed(self, item: E, after: Self) -> bool {
        &&& after@ == self@.push(item)
        &&& after.reserved_from(self, 1)
    }

    /// `after` is what `pop()` leaves of `self`, having returned `r`.
    pub open spec fn popped(self, r: Option<E>, after: Self) -> bool {
        &&& after.same_buffer(self)
        &&& if self@.len() == 0 {
            r is None && after@ == self@
        } else {
            r == Some(self@.last()) && after@ == self@.drop_last()
        }
    }

    /// `after` is what `insert(index, item)` leaves of `self`.
    pub open spec fn inserted(self, index: int, item: E, after: Self) -> bool {
        &&& after@ == self@.insert(index, item)
        &&& after.reserved_from(self, 1)
    }

    /// `after` is what `remove(index)` leaves of `self`, having returned `r`.
    pub open spec fn removed(self, index: int, r: E, after: Self) -> bool {
        &&& after.same_buffer(self)
        &&& r == self@[index]
        &&& after@ == self@.remove(index)
    }

    /// `after` is what `set_persistent(persistent)` leaves of `self`.
    pub open spec fn persistence_set(self, persistent: bool, after: Self) -> bool {
        &&& after@ == self@
        &&& after.cap() == self.cap()
        &&& after.backing() == self.backing()
        &&& after.serializes() == self.serializes()
        &&& after.on_close() == (if !persistent {
            OnClose::Delete
        } else if self.on_close() is Delete {
            OnClose::Persist
        } else {
            self.on_close()
        })
    }

    /// `after` is what `close()` leaves of `self`, having handed back `c`.
    pub open spec fn closed(self, c: Option<Closing<E>>, after: Self) -> bool {
        &&& after@ == Seq::<E>::empty()
        &&& after.cap() == 0
        &&& after.backing() is None
        &&& after.on_close() == self.on_close()
        &&& after.serializes() == self.serializes()
        &&& match c {
            None => self.backing() is None,
            Some(c) => {
                &&& self.backing() == Some(c.path@)
                &&& c.items@ == self@
                &&& c.behavior == self.on_close()
            },
        }
    }

    /// `v` is what `opened(path, items)` makes of a backing file named `path`
    /// that holds `items`.
    pub open spec fn reopened(path: Seq<char>, items: Seq<E>, v: Self) -> bool {
        &&& v@ == items
        &&& v.cap() == items.len()
        &&& v.backing() == Some(path)
        &&& v.on_close() == OnClose::Persist
        &&& !v.serializes()
    }

    /// `after` and `rest` are what `split_off(at)` leaves of `self` and
    /// returns.
    pub open spec fn split_at(self, at: int, after: Self, rest: Self) -> bool {
        &&& after.same_buffer(self)
        &&& after@ == self@.subrange(0, at)
        &&& rest@ == self@.subrange(at, self@.len() as int)
        &&& rest.cap() == self@.len() - at
        &&& backing_after(None, at < self@.len(), rest.backing())
        &&& rest.on_close() == OnClose::Delete
        &&& !rest.serializes()
    }

    /// `after` and `other_after` are what `append(other)` leaves of `self`
    /// and `other`.
    pub open spec fn appended(self, other: Self, after: Self, other_after: Self) -> bool {
        &&& after.reserved_from(self, other@.len())
        &&& after@ == self@ + other@
        &&& other_after.same_buffer(other)
        &&& other_after@ == Seq::<E>::empty()
    }

    /// The items fit in the buffer, the buffer fits in `isize::MAX` bytes,
    /// the item type has a size, and a vector without a backing file has no
    /// buffer.
    pub closed spec fn wf(&self) -> bool {
        &&& vstd::layout::size_of::<E>() > 0
        &&& vstd::layout::size_of::<E>() <= isize::MAX
        &&& self.items@.len() <= self.cap
        &&& self.cap <= max_capacity::<E>()
        &&& self.path is None ==> self.cap == 0
    }

    pub proof fn lemma_wf(&self)
        requires
            self.wf(),
        ensures
            self@.len() <= self.cap(),
            self.cap() <= max_capacity::<E>(),
            max_capacity::<E>() >= 1,
            max_capacity::<E>() <= isize::MAX,
            self.backing() is None ==> self.cap() == 0,
    {
        assert(isize::MAX as nat / vstd::layout::size_of::<E>() >= 1) by (nonlinear_arith)
            requires
                vstd::layout::size_of::<E>() > 0,
                vstd::layout::size_of::<E>() <= isize::MAX,
        ;
        assert(isize::MAX as nat / vstd::layout::size_of::<E>() <= isize::MAX) by (nonlinear_arith)
            requires
                vstd::layout::size_of::<E>() > 0,
        ;
    }

    /// Creates an empty vector. It has no backing file until it first needs
    /// room for items.
    pub fn new() -> (v: Self)
        requires
            vstd::layout::size_of::<E>() > 0,
        ensures
            v.wf(),
            v@ == Seq::<E>::empty(),
            v.cap() == 0,
            v.backing() is None,
            v.on_close() == OnClose::Delete,
            !v.serializes(),
    {
        vstd::layout::layout_for_type_is_valid::<E>();
        FileVec {
            items: Vec::new(),
            cap: 0,
            path: None,
            closebehavior: OnClose::Delete,
            serial: false,
        }
    }

    /// Creates an empty vector as `new` does, where the item type has a size;
    /// none for an item type of size zero, which a vector cannot hold.
    pub fn try_new() -> (v: Option<Self>)
        ensures
            v is Some <==> vstd::layout::size_of::<E>() > 0,
            v matches Some(v) ==> {
                &&& v.wf()
                &&& v@ == Seq::<E>::empty()
                &&& v.cap() == 0
                &&& v.backing() is None
                &&& v.on_close() == OnClose::Delete
                &&& !v.serializes()
            },
    {
        if core::mem::size_of::<E>() == 0 {
            None
        } else {
            Some(Self::new())
        }
    }

    /// Creates an empty vector with room for at least `cap` items.
    pub fn with_capacity(cap: usize) -> (v: Self)
        requires
            vstd::layout::size_of::<E>() > 0,
            can_reserve::<E>(0, 0, cap as nat),
        ensures
            v.wf(),
            v@ == Seq::<E>::empty(),
            v.cap() == reserve_target(0, 0, cap as nat),
            backing_after(None, cap > 0, v.backing()),
            v.on_close() == OnClose::Delete,
            !v.serializes(),
    {
        let mut result = Self::new();
        result.reserve(cap);
        result
    }

    /// The number of items.
    pub fn len(&self) -> (n: usize)
        ensures
            n == self@.len(),
    {
        self.items.len()
    }

    /// Whether there are no items.
    pub fn is_empty(&self) -> (b: bool)
        ensures
            b == (self@.len() == 0),
    {
        self.items.len() == 0
    }

    /// How many items the backing buffer holds room for.
    pub fn capacity(&self) -> (c: usize)
        ensures
            c == self.cap(),
    {
        self.cap
    }

    /// The backing file's name; none before the vector first needs room.
    pub fn path(&self) -> (p: Option<&String>)
        ensures
            match p {
                Some(s) => self.backing() == Some(s@),
                None => self.backing() is None,
            },
    {
        match &self.path {
            Some(s) => Some(s),
            None => None,
        }
    }

    /// The close behavior.
    pub fn close_behavior(&self) -> (b: &OnClose)
        ensures
            *b == self.on_close(),
    {
        &self.closebehavior
    }

    /// A copy of the close behavior.
    pub fn get_close_behavior(&self) -> (b: OnClose)
        ensures
            b == self.on_close(),
    {
        self.closebehavior.clone()
    }

    /// Sets the close behavior.
    pub fn set_close_behavior(&mut self, closebehavior: OnClose)
        requires
            old(self).wf(),
        ensures
            final(self).wf(),
            final(self)@ == old(self)@,
            final(self).cap() == old(self).cap(),
            final(self).backing() == old(self).backing(),
            final(self).on_close() == closebehavior,
            final(self).serializes() == old(self).serializes(),
    {
        self.closebehavior = closebehavior;
    }

    /// Whether a serialization has been set up, as `OnClose::Serialize` needs.
    pub fn has_serialization(&self) -> (b: bool)
        ensures
            b == self.serializes(),
    {
        self.serial
    }

    /// Records that a serialization has been set up, as `OnClose::Serialize`
    /// needs; the close behavior stays as it is.
    pub fn enable_serialization(&mut self)
        requires
            old(self).wf(),
        ensures
            final(self).wf(),
            final(self)@ == old(self)@,
            final(self).cap() == old(self).cap(),
            final(self).backing() == old(self).backing(),
            final(self).on_close() == old(self).on_close(),
            final(self).serializes(),
    {
        self.serial = true;
    }

    /// Records that a serialization has been set up and makes the vector
    /// serialize its items in its backing file's place on close.
    pub fn serialize_on_close(&mut self)
        requires
            old(self).wf(),
        ensures
            final(self).wf(),
            final(self)@ == old(self)@,
            final(self).cap() == old(self).cap(),
            final(self).backing() == old(self).backing(),
            final(self).on_close() == OnClose::Serialize(None),
            final(self).serializes(),
    {
        self.serial = true;
        self.closebehavior = OnClose::Serialize(None);
    }

    /// Makes the vector keep its backing file (`Delete` becomes `Persist`;
    /// another behavior stays) or delete it (any behavior becomes `Delete`).
    pub fn set_persistent(&mut self, persistent: bool)
        requires
            old(self).wf(),
        ensures
            final(self).wf(),
            old(self).persistence_set(persistent, *final(self)),
    {
        if persistent {
            if let OnClose::Delete = &self.closebehavior {
                self.closebehavior = OnClose::Persist;
            }
        } else {
            self.closebehavior = OnClose::Delete;
        }
    }

    /// Sets the buffer to `cap` items, giving the vector a fresh backing file
    /// if it has none.
    fn grow_to(&mut self, cap: usize)
        requires
            old(self).wf(),
            old(self)@.len() <= cap <= max_capacity::<E>(),
            old(self).cap() < cap,
        ensures
            final(self).wf(),
            final(self)@ == old(self)@,
            final(self).cap() == cap,
            backing_after(old(self).backing(), true, final(self).backing()),
            final(self).on_close() == old(self).on_close(),
            final(self).serializes() == old(self).serializes(),
    {
        if self.path.is_none() {
            self.path = Some(generate_path());
        }
        self.cap = cap;
    }

    /// Makes room for at least `additional` more items: where they do not fit,
    /// the buffer grows to the smallest power of two that holds them.
    pub fn reserve(&mut self, additional: usize)
        requires
            old(self).wf(),
            can_reserve::<E>(old(self).cap(), old(self)@.len(), additional as nat),
        ensures
            final(self).wf(),
            final(self)@ == old(self)@,
            final(self).reserved_from(*old(self), additional as nat),
    {
        proof {
            self.lemma_wf();
            crate::capacity::lemma_pow2_at_least(required(self@.len(), additional as nat));
        }
        let cap: usize = reserve_capacity(self.cap, self.items.len(), additional);
        if cap != self.cap {
            self.grow_to(cap);
        }
    }

    /// Makes room for at least `additional` more items: where they do not fit,
    /// the buffer grows to exactly what holds them.
    pub fn reserve_exact(&mut self, additional: usize)
        requires
            old(self).wf(),
            can_reserve_exact::<E>(old(self).cap(), old(self)@.len(), additional as nat),
        ensures
            final(self).wf(),
            final(self)@ == old(self)@,
            final(self).reserved_exact_from(*old(self), additional as nat),
    {
        let cap: usize = reserve_exact_capacity(self.cap, self.items.len(), additional);
        if cap != self.cap {
            self.grow_to(cap);
        }
    }

    /// Appends an item.
    pub fn push(&mut self, item: E)
        requires
            old(self).wf(),
            can_reserve::<E>(old(self).cap(), old(self)@.len(), 1),
        ensures
            final(self).wf(),
            old(self).pushed(item, *final(self)),
    {
        proof {
            self.lemma_wf();
            crate::capacity::lemma_pow2_at_least(required(self@.len(), 1));
        }
        self.reserve(1);
        self.items.push(item);
    }

    /// Appends an item and returns a reference to it.
    pub fn push_mut(&mut self, item: E) -> (r: &mut E)
        requires
            old(self).wf(),
            can_reserve::<E>(old(self).cap(), old(self)@.len(), 1),
        ensures
            *r == item,
            final(self).wf(),
            final(self)@ == old(self)@.push(*final(r)),
            final(self).reserved_from(*old(self), 1),
    {
        proof {
            self.lemma_wf();
            crate::capacity::lemma_pow2_at_least(required(self@.len(), 1));
        }
        self.reserve(1);
        self.items.push(item);
        let last: usize = self.items.len() - 1;
        &mut self.items[last]
    }

    /// Appends an item if the buffer has room for it, and returns a reference
    /// to it; otherwise hands the item back.
    pub fn push_within_capacity(&mut self, item: E) -> (r: Result<&mut E, E>)
        requires
            old(self).wf(),
        ensures
            final(self).wf(),
            final(self).same_buffer(*old(self)),
            match r {
                Ok(x) => {
                    &&& old(self)@.len() < old(self).cap()
                    &&& *x == item
                    &&& final(self)@ == old(self)@.push(*final(x))
                },
                Err(x) => {
                    &&& old(self)@.len() >= old(self).cap()
                    &&& x == item
                    &&& final(self)@ == old(self)@
                },
            },
    {
        if self.items.len() < self.cap {
            self.items.push(item);
            let last: usize = self.items.len() - 1;
            Ok(&mut self.items[last])
        } else {
            Err(item)
        }
    }

    /// Removes the last item and returns it; none if there are no items.
    pub fn pop(&mut self) -> (r: Option<E>)
        requires
            old(self).wf(),
        ensures
            final(self).wf(),
            old(self).popped(r, *final(self)),
    {
        self.items.pop()
    }

    /// Hands the last item to `f`, and removes and returns it if `f` says
    /// so; none if there are no items or `f` says no.
    pub fn pop_if<F: FnOnce(&mut E) -> bool>(&mut self, f: F) -> (r: Option<E>)
        requires
            old(self).wf(),
            forall|x: &mut E| f.requires((x,)),
        ensures
            final(self).wf(),
            final(self).same_buffer(*old(self)),
            old(self)@.len() == 0 ==> r is None && final(self)@ == old(self)@,
            old(self)@.len() > 0 ==> exists|x: &mut E, b: bool|
                {
                    &&& *x == old(self)@.last()
                    &&& f.ensures((x,), b)
                    &&& if b {
                        &&& r == Some(*final(x))
                        &&& final(self)@ == old(self)@.drop_last()
                    } else {
                        &&& r is None
                        &&& final(self)@ == old(self)@.drop_last().push(*final(x))
                    }
                },
    {
        let l: usize = self.items.len();
        if l == 0 {
            return None;
        }
        let b: bool = f(&mut self.items[l - 1]);
        if !b {
            return None;
        }
        self.items.pop()
    }

    /// Inserts an item at `index`, shifting the items after it up.
    pub fn insert(&mut self, index: usize, item: E)
        requires
            old(self).wf(),
            index <= old(self)@.len(),
            can_reserve::<E>(old(self).cap(), old(self)@.len(), 1),
        ensures
            final(self).wf(),
            old(self).inserted(index as int, item, *final(self)),
    {
        self.insert_mut(index, item);
    }

    /// Inserts an item at `index`, shifting the items after it up, and
    /// returns a reference to it.
    pub fn insert_mut(&mut self, index: usize, item: E) -> (r: &mut E)
        requires
            old(self).wf(),
            index <= old(self)@.len(),
            can_reserve::<E>(old(self).cap(), old(self)@.len(), 1),
        ensures
            *r == item,
            final(self).wf(),
            final(self)@ == old(self)@.insert(index as int, *final(r)),
            final(self).reserved_from(*old(self), 1),
    {
        proof {
            self.lemma_wf();
            crate::capacity::lemma_pow2_at_least(required(self@.len(), 1));
        }
        self.reserve(1);
        self.items.insert(index, item);
        &mut self.items[index]
    }

    /// Removes and returns the item at `index`, shifting the items after it
    /// down.
    pub fn remove(&mut self, index: usize) -> (r: E)
        requires
            old(self).wf(),
            index < old(self)@.len(),
        ensures
            final(self).wf(),
            old(self).removed(index as int, r, *final(self)),
    {
        self.items.remove(index)
    }

    /// Removes and returns the item at `index`, putting the last item in its
    /// place.
    pub fn swap_remove(&mut self, index: usize) -> (r: E)
        requires
            old(self).wf(),
            index < old(self)@.len(),
        ensures
            final(self).wf(),
            final(self).same_buffer(*old(self)),
            r == old(self)@[index as int],
            final(self)@ == old(self)@.update(index as int, old(self)@.last()).drop_last(),
    {
        self.items.swap_remove(index)
    }

    /// Shortens the vector to `n` items if it is longer, dropping the rest.
    pub fn truncate(&mut self, n: usize)
        requires
            old(self).wf(),
        ensures
            final(self).wf(),
            final(self).same_buffer(*old(self)),
            final(self)@ == (if n < old(self)@.len() {
                old(self)@.subrange(0, n as int)
            } else {
                old(self)@
            }),
    {
        self.items.truncate(n);
    }

    /// Drops all the items; the buffer and the backing file stay.
    pub fn clear(&mut self)
        requires
            old(self).wf(),
        ensures
            final(self).wf(),
            final(self).same_buffer(*old(self)),
            final(self)@ == Seq::<E>::empty(),
    {
        self.items.clear();
    }

    /// The items as a slice.
    pub fn as_slice(&self) -> (s: &[E])
        ensures
            s@ == self@,
    {
        self.items.as_slice()
    }

    /// The items as a mutable slice.
    pub fn as_mut_slice(&mut self) -> (s: &mut [E])
        requires
            old(self).wf(),
        ensures
            s@ == old(self)@,
            final(s)@.len() == old(self)@.len() ==> final(self).wf(),
            final(self)@ == final(s)@,
            final(self).same_buffer(*old(self)),
    {
        self.items.as_mut_slice()
    }

    /// Takes the items at positions `start..stop` out, closing the gap.
    pub(crate) fn take_range(&mut self, start: usize, stop: usize) -> (taken: Vec<E>)
        requires
            old(self).wf(),
            start <= stop <= old(self)@.len(),
        ensures
            final(self).wf(),
            final(self).same_buffer(*old(self)),
            taken@ == old(self)@.subrange(start as int, stop as int),
            final(self)@ == old(self)@.subrange(0, start as int) + old(self)@.subrange(
                stop as int,
                old(self)@.len() as int,
            ),
    {
        let mut tail = self.items.split_off(stop);
        let taken = self.items.split_off(start);
        self.items.append(&mut tail);
        taken
    }

    /// Puts `items` back in at position `at`, within the buffer's room.
    pub(crate) fn put_back(&mut self, at: usize, items: Vec<E>)
        requires
            old(self).wf(),
            at <= old(self)@.len(),
            old(self)@.len() + items@.len() <= old(self).cap(),
        ensures
            final(self).wf(),
            final(self).same_buffer(*old(self)),
            final(self)@ == old(self)@.subrange(0, at as int) + items@ + old(self)@.subrange(
                at as int,
                old(self)@.len() as int,
            ),
    {
        let mut items = items;
        let mut tail = self.items.split_off(at);
        self.items.append(&mut items);
        self.items.append(&mut tail);
    }

    /// A mutable reference to the item at position `i`.
    pub(crate) fn item_mut(&mut self, i: usize) -> (r: &mut E)
        requires
            old(self).wf(),
            i < old(self)@.len(),
        ensures
            *r == old(self)@[i as int],
            final(self).wf(),
            final(self).same_buffer(*old(self)),
            final(self)@ == old(self)@.update(i as int, *final(r)),
    {
        &mut self.items[i]
    }

    /// Takes the items in `range` out, to be yielded from either end by the
    /// returned `Drain`.
    pub fn drain<R: IndexRange>(&mut self, range: R) -> (d: Drain<'_, E>)
        requires
            old(self).wf(),
            range_fits(range, old(self)@.len()),
        ensures
            d.wf(),
            d.took(*old(self), range),
            *final(self) == *final(d.vec),
    {
        Drain::new(self, range)
    }

    /// Removes and drops the items in `range`.
    pub fn remove_range<R: IndexRange>(&mut self, range: R)
        requires
            old(self).wf(),
            range_fits(range, old(self)@.len()),
        ensures
            final(self).wf(),
            final(self).same_buffer(*old(self)),
            final(self)@ == old(self)@.subrange(0, range_start(range) as int) + old(self)@.subrange(
                range_stop(range, old(self)@.len()) as int,
                old(self)@.len() as int,
            ),
    {
        let d = Drain::new(self, range);
    }

    /// Prepares to take out, within `range`, the items that `f` picks, one at
    /// a time from either end.
    pub fn extract_if<R: IndexRange, F: FnMut(&mut E) -> bool>(&mut self, range: R, f: F) -> (x:
        ExtractIf<'_, E, F>)
        requires
            old(self).wf(),
            range_fits(range, old(self)@.len()),
        ensures
            x.wf(),
            x.f == f,
            x.front == range_start(range),
            x.back == range_stop(range, old(self)@.len()),
            *x.vec == *old(self),
            *final(self) == *final(x.vec),
    {
        ExtractIf::new(self, range, f)
    }

}

} // verus!
