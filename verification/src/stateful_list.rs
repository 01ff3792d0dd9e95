//! A cursor over a replaceable backing list, with wraparound navigation:
//! the generic selection state behind the interactive host list.

use vstd::prelude::*;

verus! {

/// The cursor names an existing entry.
pub open spec fn valid_cursor(cur: Option<usize>, len: nat) -> bool {
    match cur {
        Some(i) => i < len,
        None => false,
    }
}

/// Where the cursor stands after one step forward: wraps from the last entry
/// to the first, lands on the first when unset, and stays put on an empty
/// list.
pub open spec fn next_cursor(cur: Option<usize>, len: nat) -> Option<usize> {
    if len == 0 {
        cur
    } else {
        match cur {
            Some(i) => if i + 1 >= len {
                Some(0usize)
            } else {
                Some((i + 1) as usize)
            },
            None => Some(0usize),
        }
    }
}

/// Where the cursor stands after one step backward: wraps from the first
/// entry to the last, lands on the first when unset, and stays put on an
/// empty list.
pub open spec fn prev_cursor(cur: Option<usize>, len: nat) -> Option<usize> {
    if len == 0 {
        cur
    } else {
        match cur {
            Some(i) => if i == 0 {
                Some((len - 1) as usize)
            } else {
                Some((i - 1) as usize)
            },
            None => Some(0usize),
        }
    }
}

/// A replaceable backing list together with a cursor.
pub struct StatefulList<T> {
    data: Vec<T>,
    selected: Option<usize>,
}

impl<T> StatefulList<T> {
    /// The backing items, in storage order.
    pub closed spec fn items(&self) -> Seq<T> {
        self.data@
    }

    /// The cursor, if set.
    pub closed spec fn cursor(&self) -> Option<usize> {
        self.selected
    }

    /// An empty list with no cursor.
    pub fn new() -> (r: Self)
        ensures
            r.items() == Seq::<T>::empty(),
            r.cursor() is None,
    {
        StatefulList { data: Vec::new(), selected: None }
    }

    /// Replace the backing data; the cursor becomes unset.
    pub fn set_data(&mut self, data: Vec<T>)
        ensures
            final(self).items() == data@,
            final(self).cursor() is None,
    {
        self.data = data;
        self.selected = None;
    }

    /// Put the cursor on the first entry, unconditionally; on an empty list
    /// the cursor then names no entry and `current` returns nothing.
    pub fn select_first(&mut self)
        ensures
            final(self).items() == old(self).items(),
            final(self).cursor() == Some(0usize),
    {
        self.selected = Some(0);
    }

    /// One step forward, wrapping from the last entry to the first; no-op on
    /// an empty list.
    pub fn select_next(&mut self)
        ensures
            final(self).items() == old(self).items(),
            final(self).cursor() == next_cursor(old(self).cursor(), old(self).items().len()),
    {
        if self.data.is_empty() {
            return ;
        }
        let i: usize = match self.selected {
            Some(i) => {
                if i >= self.data.len() - 1 {
                    0
                } else {
                    i + 1
                }
            },
            None => 0,
        };
        self.selected = Some(i);
    }

    /// One step backward, wrapping from the first entry to the last; no-op
    /// on an empty list.
    pub fn select_previous(&mut self)
        ensures
            final(self).items() == old(self).items(),
            final(self).cursor() == prev_cursor(old(self).cursor(), old(self).items().len()),
    {
        if self.data.is_empty() {
            return ;
        }
        let i: usize = match self.selected {
            Some(i) => {
                if i == 0 {
                    self.data.len() - 1
                } else {
                    i - 1
                }
            },
            None => 0,
        };
        self.selected = Some(i);
    }

    /// The entry under the cursor, or nothing when the cursor is unset or
    /// out of bounds.
    pub fn current(&self) -> (r: Option<&T>)
        ensures
            r is Some <==> valid_cursor(self.cursor(), self.items().len()),
            match r {
                Some(x) => match self.cursor() {
                    Some(i) => *x == self.items()[i as int],
                    None => false,
                },
                None => true,
            },
    {
        match self.selected {
            Some(i) => {
                if i < self.data.len() {
                    Some(&self.data[i])
                } else {
                    None
                }
            },
            None => None,
        }
    }

    /// How many entries the backing list holds.
    pub fn len(&self) -> (r: usize)
        ensures
            r == self.items().len(),
    {
        self.data.len()
    }

    /// The entry at `i`, independent of the cursor.
    pub fn get(&self, i: usize) -> (r: Option<&T>)
        ensures
            match r {
                Some(x) => i < self.items().len() && *x == self.items()[i as int],
                None => i >= self.items().len(),
            },
    {
        if i < self.data.len() {
            Some(&self.data[i])
        } else {
            None
        }
    }

    /// The cursor, for a renderer to highlight.
    pub fn selected_index(&self) -> (r: Option<usize>)
        ensures
            r == self.cursor(),
    {
        self.selected
    }
}

} // verus!
