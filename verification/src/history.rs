use std::collections::vec_deque::Iter;
use std::collections::VecDeque;
use vstd::prelude::*;
use vstd::std_specs::iter::IteratorSpec;
use vstd::string::StringExecFns;

verus! {

/// What a window of `capacity` entries holds after `item` arrives: once the
/// window is full its oldest entry is dropped first.
pub open spec fn window_push<T>(capacity: nat, window: Seq<T>, item: T) -> Seq<T> {
    if window.len() >= capacity && window.len() > 0 {
        window.drop_first().push(item)
    } else {
        window.push(item)
    }
}

/// The window after each of `items` arrived, in order.
pub open spec fn window_push_all<T>(capacity: nat, window: Seq<T>, items: Seq<T>) -> Seq<T>
    decreases items.len(),
{
    if items.len() == 0 {
        window
    } else {
        window_push(capacity, window_push_all(capacity, window, items.drop_last()), items.last())
    }
}

/// The most entries a window of `capacity` ever holds (a window of capacity
/// zero still keeps the latest entry).
pub open spec fn window_bound(capacity: nat) -> nat {
    if capacity == 0 {
        1
    } else {
        capacity
    }
}

/// Historical data for one metric, kept as a sliding window.
#[derive(Debug)]
pub struct HistoryBuffer<T> {
    data: VecDeque<T>,
    capacity: usize,
}

impl<T> View for HistoryBuffer<T> {
    type V = Seq<T>;

    /// The entries, oldest first.
    closed spec fn view(&self) -> Seq<T> {
        self.data@
    }
}

impl<T> HistoryBuffer<T> {
    #[verifier::type_invariant]
    spec fn within_capacity(self) -> bool {
        self.data@.len() <= window_bound(self.capacity as nat)
    }

    /// The number of entries the window is meant to keep.
    pub closed spec fn capacity(&self) -> nat {
        self.capacity as nat
    }

    /// An empty history keeping at most `capacity` entries.
    pub fn new(capacity: usize) -> (r: Self)
        ensures
            r@ == Seq::<T>::empty(),
            r.capacity() == capacity,
    {
        HistoryBuffer { data: VecDeque::with_capacity(capacity), capacity }
    }

    /// Appends `item`, dropping the oldest entry when the window is full.
    pub fn push(&mut self, item: T)
        ensures
            final(self)@ == window_push(old(self).capacity(), old(self)@, item),
            final(self).capacity() == old(self).capacity(),
            final(self)@.len() <= window_bound(old(self).capacity()),
    {
        proof {
            use_type_invariant(&*self);
        }
        let mut data = VecDeque::new();
        std::mem::swap(&mut data, &mut self.data);
        if data.len() >= self.capacity {
            let _ = data.pop_front();
        }
        data.push_back(item);
        self.data = data;
    }

    /// The number of entries, never more than the capacity (one when the
    /// capacity is zero).
    pub fn len(&self) -> (r: usize)
        ensures
            r == self@.len(),
            r <= window_bound(self.capacity()),
    {
        proof {
            use_type_invariant(self);
        }
        self.data.len()
    }

    /// The entries, oldest first.
    pub fn iter(&self) -> (r: Iter<'_, T>)
        ensures
            self@.len() <= window_bound(self.capacity()),
            IteratorSpec::remaining(&r) == self@.as_ref(),
            IteratorSpec::decrease(&r) is Some,
            IteratorSpec::initial_value_relation(&r, &r),
    {
        let it = self.data.iter();
        proof {
            use_type_invariant(self);
            broadcast use vstd::std_specs::vecdeque::group_vec_dequeue_axioms;
        }
        it
    }

    /// The newest entry, if any.
    pub fn latest(&self) -> (r: Option<&T>)
        ensures
            self@.len() <= window_bound(self.capacity()),
            r == (if self@.len() > 0 {
                Some(&self@.last())
            } else {
                None
            }),
    {
        proof {
            use_type_invariant(self);
        }
        let n = self.data.len();
        if n > 0 {
            Some(&self.data[n - 1])
        } else {
            None
        }
    }
}

/// A push onto a window within its bound adds one entry until the window
/// holds `capacity` entries, and keeps the count there after that: windows of
/// equal capacity and length stay of equal length.
pub proof fn lemma_window_push_len<T>(capacity: nat, window: Seq<T>, item: T)
    requires
        capacity > 0,
        window.len() <= capacity,
    ensures
        window_push(capacity, window, item).len() == (if window.len() + 1 <= capacity {
            window.len() + 1
        } else {
            capacity
        }),
{
}

/// A history that starts empty holds the last `capacity` of the items pushed
/// onto it (all of them while fewer have arrived), oldest first.
pub proof fn lemma_history_keeps_latest<T>(capacity: nat, items: Seq<T>)
    requires
        capacity > 0,
    ensures
        window_push_all(capacity, Seq::<T>::empty(), items) == (if items.len() <= capacity {
            items
        } else {
            items.skip(items.len() - capacity)
        }),
    decreases items.len(),
{
    if items.len() > 0 {
        let prefix = items.drop_last();
        lemma_history_keeps_latest(capacity, prefix);
        if items.len() <= capacity {
            assert(prefix.push(items.last()) =~= items);
        } else if prefix.len() <= capacity {
            assert(prefix.len() == capacity);
            assert(prefix.drop_first().push(items.last()) =~= items.skip(items.len() - capacity));
        } else {
            let w = prefix.skip(prefix.len() - capacity);
            assert(w.drop_first().push(items.last()) =~= items.skip(items.len() - capacity));
        }
    }
}

/// The line written to the session log for `message` at `timestamp`.
pub open spec fn log_line_spec(timestamp: Seq<char>, message: Seq<char>) -> Seq<char> {
    "["@ + timestamp + "] "@ + message
}

/// The line written to the session log for `message` at `timestamp`
/// (without the line break).
pub fn log_line(timestamp: &str, message: &str) -> (r: String)
    ensures
        r@ == log_line_spec(timestamp@, message@),
{
    let mut r = String::from_str("[");
    r.append(timestamp);
    r.append("] ");
    r.append(message);
    r
}

} // verus!
