//! An ordered snapshot of items with an optional circular selection cursor.

use vstd::prelude::*;
use vstd::string::StringExecFns;

verus! {

/// Mathematical value of a [`SelectableList`]: the item views, the optional
/// title, and the optional cursor position.
pub ghost struct ListView<T> {
    pub items: Seq<T>,
    pub title: Option<Seq<char>>,
    pub cursor: Option<int>,
}

impl<T> ListView<T> {
    /// The list invariant: a cursor, when present, points at an item, so an
    /// empty list never carries one.
    pub open spec fn wf(self) -> bool {
        match self.cursor {
            None => true,
            Some(i) => 0 <= i < self.items.len(),
        }
    }
}

/// The cursor after one step forward: `None` selects the first item, and a
/// selection advances circularly.  On an empty list the cursor is unchanged.
pub open spec fn cursor_next(cursor: Option<int>, len: int) -> Option<int> {
    if len <= 0 {
        cursor
    } else {
        match cursor {
            None => Some(0int),
            Some(i) => Some((i + 1) % len),
        }
    }
}

/// The cursor after one step backward: `None` selects the first item, and a
/// selection retreats circularly.  On an empty list the cursor is unchanged.
pub open spec fn cursor_prev(cursor: Option<int>, len: int) -> Option<int> {
    if len <= 0 {
        cursor
    } else {
        match cursor {
            None => Some(0int),
            Some(i) => Some((i - 1 + len) % len),
        }
    }
}

/// The cursor as seen in specifications.
pub open spec fn cursor_view(cursor: Option<usize>) -> Option<int> {
    match cursor {
        None => None,
        Some(i) => Some(i as int),
    }
}

/// An ordered snapshot plus an optional circular cursor.  All operations
/// return a new value; nothing is shared or mutated in place.
pub struct SelectableList<T> {
    list: Vec<T>,
    title: Option<String>,
    index: Option<usize>,
}

impl<T: View> View for SelectableList<T> {
    type V = ListView<T::V>;

    closed spec fn view(&self) -> ListView<T::V> {
        ListView {
            items: self.list@.map_values(|t: T| t@),
            title: match self.title {
                None => None,
                Some(s) => Some(s@),
            },
            cursor: cursor_view(self.index),
        }
    }
}

impl<T: View> SelectableList<T> {
    /// A fresh snapshot: no title, no selection.
    pub fn new(list: Vec<T>) -> (r: Self)
        ensures
            r@.items == list@.map_values(|t: T| t@),
            r@.title is None,
            r@.cursor is None,
            r@.wf(),
    {
        Self { list, title: None, index: None }
    }

    /// The number of items in the snapshot.
    pub fn len(&self) -> (n: usize)
        ensures
            n == self@.items.len(),
    {
        self.list.len()
    }

    /// The items themselves, in order.
    pub fn items(&self) -> (r: &Vec<T>)
        ensures
            r@.map_values(|t: T| t@) == self@.items,
    {
        &self.list
    }

    /// The current cursor position, if any.
    pub fn cursor(&self) -> (r: Option<usize>)
        ensures
            cursor_view(r) == self@.cursor,
    {
        self.index
    }

    /// The same list under the given label.
    pub fn title(self, title: &str) -> (r: Self)
        ensures
            r@.items == self@.items,
            r@.cursor == self@.cursor,
            r@.title == Some(title@),
    {
        Self { title: Some(String::from_str(title)), ..self }
    }

    /// The label, if one was set.
    pub fn title_str(&self) -> (r: Option<&String>)
        ensures
            match r {
                None => self@.title is None,
                Some(s) => self@.title == Some(s@),
            },
    {
        match &self.title {
            None => None,
            Some(s) => Some(s),
        }
    }

    /// The same list with the cursor placed on the given item.
    pub fn index(self, index: usize) -> (r: Self)
        requires
            index < self@.items.len(),
        ensures
            r@.items == self@.items,
            r@.title == self@.title,
            r@.cursor == Some(index as int),
            r@.wf(),
    {
        Self { index: Some(index), ..self }
    }

    /// The list with its cursor advanced one step circularly.  `total_size`
    /// is the list's own length, as in the callers' hands.
    pub fn next(self, total_size: usize) -> (r: Self)
        requires
            self@.wf(),
            total_size == self@.items.len(),
        ensures
            r@.items == self@.items,
            r@.title == self@.title,
            r@.cursor == cursor_next(self@.cursor, total_size as int),
            r@.wf(),
    {
        let index = step_next(self.index, total_size);
        Self { index, ..self }
    }

    /// The list with its cursor retreated one step circularly.
    pub fn prev(self, total_size: usize) -> (r: Self)
        requires
            self@.wf(),
            total_size == self@.items.len(),
        ensures
            r@.items == self@.items,
            r@.title == self@.title,
            r@.cursor == cursor_prev(self@.cursor, total_size as int),
            r@.wf(),
    {
        let index = step_prev(self.index, total_size);
        Self { index, ..self }
    }
}

/// One circular step forward over a list of `len` items, guarded against the
/// empty list: there the cursor is left untouched.
pub fn step_next(cursor: Option<usize>, len: usize) -> (r: Option<usize>)
    requires
        cursor is Some ==> cursor->0 < len,
    ensures
        cursor_view(r) == cursor_next(cursor_view(cursor), len as int),
        r is Some ==> r->0 < len,
{
    if len == 0 {
        cursor
    } else {
        match cursor {
            None => Some(0),
            Some(i) => {
                if i + 1 == len {
                    proof {
                        vstd::arithmetic::div_mod::lemma_mod_self_0(len as int);
                    }
                    Some(0)
                } else {
                    proof {
                        vstd::arithmetic::div_mod::lemma_small_mod((i + 1) as nat, len as nat);
                    }
                    Some(i + 1)
                }
            },
        }
    }
}

/// One circular step backward, with the same guard for the empty list.
pub fn step_prev(cursor: Option<usize>, len: usize) -> (r: Option<usize>)
    requires
        cursor is Some ==> cursor->0 < len,
    ensures
        cursor_view(r) == cursor_prev(cursor_view(cursor), len as int),
        r is Some ==> r->0 < len,
{
    if len == 0 {
        cursor
    } else {
        match cursor {
            None => Some(0),
            Some(i) => {
                if i == 0 {
                    proof {
                        vstd::arithmetic::div_mod::lemma_small_mod((len - 1) as nat, len as nat);
                    }
                    Some(len - 1)
                } else {
                    proof {
                        vstd::arithmetic::div_mod::lemma_mod_add_multiples_vanish(
                            i - 1,
                            len as int,
                        );
                        vstd::arithmetic::div_mod::lemma_small_mod((i - 1) as nat, len as nat);
                    }
                    Some(i - 1)
                }
            },
        }
    }
}

/// The cursor after `k` steps forward.
pub open spec fn cursor_next_n(cursor: Option<int>, len: int, k: nat) -> Option<int>
    decreases k,
{
    if k == 0 {
        cursor
    } else {
        cursor_next(cursor_next_n(cursor, len, (k - 1) as nat), len)
    }
}

/// The cursor after `k` steps backward.
pub open spec fn cursor_prev_n(cursor: Option<int>, len: int, k: nat) -> Option<int>
    decreases k,
{
    if k == 0 {
        cursor
    } else {
        cursor_prev(cursor_prev_n(cursor, len, (k - 1) as nat), len)
    }
}

proof fn lemma_cursor_next_n_value(i: int, len: int, k: nat)
    requires
        0 <= i < len,
    ensures
        cursor_next_n(Some(i), len, k) == Some((i + k) % len),
    decreases k,
{
    if k == 0 {
        vstd::arithmetic::div_mod::lemma_small_mod(i as nat, len as nat);
    } else {
        lemma_cursor_next_n_value(i, len, (k - 1) as nat);
        vstd::arithmetic::div_mod::lemma_add_mod_noop_right(1, i + k - 1, len);
    }
}

proof fn lemma_cursor_prev_n_value(i: int, len: int, k: nat)
    requires
        0 <= i < len,
    ensures
        cursor_prev_n(Some(i), len, k) == Some((i - k) % len),
    decreases k,
{
    if k == 0 {
        vstd::arithmetic::div_mod::lemma_small_mod(i as nat, len as nat);
    } else {
        lemma_cursor_prev_n_value(i, len, (k - 1) as nat);
        vstd::arithmetic::div_mod::lemma_mod_add_multiples_vanish(
            (i - (k - 1)) % len - 1,
            len,
        );
        vstd::arithmetic::div_mod::lemma_add_mod_noop_right(-1, i - (k - 1), len);
    }
}

/// Law: on a non-empty list, a selection returns to where it started after
/// exactly one full circle of forward steps, and likewise backward.
pub proof fn lemma_cursor_full_cycle(i: int, len: int)
    requires
        0 <= i < len,
    ensures
        cursor_next_n(Some(i), len, len as nat) == Some(i),
        cursor_prev_n(Some(i), len, len as nat) == Some(i),
{
    lemma_cursor_next_n_value(i, len, len as nat);
    lemma_cursor_prev_n_value(i, len, len as nat);
    vstd::arithmetic::div_mod::lemma_mod_add_multiples_vanish(i, len);
    vstd::arithmetic::div_mod::lemma_mod_sub_multiples_vanish(i, len);
    vstd::arithmetic::div_mod::lemma_small_mod(i as nat, len as nat);
}

/// Law: on a non-empty list, one step forward undoes one step backward and
/// the other way round, whenever an item is selected.
pub proof fn lemma_cursor_step_identity(i: int, len: int)
    requires
        0 <= i < len,
    ensures
        cursor_prev(cursor_next(Some(i), len), len) == Some(i),
        cursor_next(cursor_prev(Some(i), len), len) == Some(i),
{
    vstd::arithmetic::div_mod::lemma_mod_bound(i + 1, len);
    vstd::arithmetic::div_mod::lemma_mod_bound(i - 1 + len, len);
    vstd::arithmetic::div_mod::lemma_mod_add_multiples_vanish((i + 1) % len - 1, len);
    vstd::arithmetic::div_mod::lemma_add_mod_noop_right(-1, i + 1, len);
    vstd::arithmetic::div_mod::lemma_add_mod_noop_right(1, i - 1 + len, len);
    vstd::arithmetic::div_mod::lemma_mod_add_multiples_vanish(i - 1, len);
    vstd::arithmetic::div_mod::lemma_mod_add_multiples_vanish(i, len);
    vstd::arithmetic::div_mod::lemma_small_mod(i as nat, len as nat);
}

/// Law: on an empty list, stepping in either direction moves nothing, so the
/// cursor of a well-formed empty list stays `None`.
pub proof fn lemma_cursor_empty_list_noop(cursor: Option<int>)
    ensures
        cursor_next(cursor, 0) == cursor,
        cursor_prev(cursor, 0) == cursor,
{
}

/// A plain newtype over values that pick up list-navigation helpers.
pub struct W<T>(pub T);

impl W<Option<usize>> {
    /// The cursor one circular step forward, as a fresh value; the wrapped
    /// cursor itself is left as it was.
    pub fn next(&mut self, total_size: usize) -> (r: Option<usize>)
        requires
            old(self).0 is Some ==> old(self).0->0 < total_size,
        ensures
            *final(self) == *old(self),
            cursor_view(r) == cursor_next(cursor_view(old(self).0), total_size as int),
    {
        step_next(self.0, total_size)
    }

    /// The cursor one circular step backward, as a fresh value.
    pub fn prev(&mut self, total_size: usize) -> (r: Option<usize>)
        requires
            old(self).0 is Some ==> old(self).0->0 < total_size,
        ensures
            *final(self) == *old(self),
            cursor_view(r) == cursor_prev(cursor_view(old(self).0), total_size as int),
    {
        step_prev(self.0, total_size)
    }
}

} // verus!
