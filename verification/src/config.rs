//! The live-tunable parameter store: a named, ordered mapping of fixed-point
//! values with a selection cursor that cycles through the keys.

use vstd::arithmetic::div_mod::{lemma_mod_add_multiples_vanish, lemma_small_mod};
use vstd::prelude::*;

verus! {

/// Saturating signed addition, the semantics of `change_value`.
pub open spec fn sat_add_i64(a: int, b: int) -> int {
    if a + b > i64::MAX {
        i64::MAX as int
    } else if a + b < i64::MIN {
        i64::MIN as int
    } else {
        a + b
    }
}

/// Cursor position after one step forward through `len` keys, wrapping at
/// the end; the cursor of an empty store does not move.
pub open spec fn next_sel(sel: int, len: int) -> int {
    if len == 0 {
        sel
    } else if sel == len - 1 {
        0
    } else {
        sel + 1
    }
}

/// Cursor position after one step backward through `len` keys, wrapping at
/// the start; the cursor of an empty store does not move.
pub open spec fn prev_sel(sel: int, len: int) -> int {
    if len == 0 {
        sel
    } else if sel == 0 {
        len - 1
    } else {
        sel - 1
    }
}

/// The cursor after `k` forward steps.
pub open spec fn iter_next_sel(sel: int, len: int, k: nat) -> int
    decreases k,
{
    if k == 0 {
        sel
    } else {
        next_sel(iter_next_sel(sel, len, (k - 1) as nat), len)
    }
}

/// Stepping forward lands on `(sel + k) % len`.
pub proof fn lemma_iter_next_sel_mod(sel: int, len: int, k: nat)
    requires
        0 <= sel < len,
    ensures
        iter_next_sel(sel, len, k) == (sel + k) % len,
    decreases k,
{
    if k == 0 {
        lemma_small_mod(sel as nat, len as nat);
    } else {
        lemma_iter_next_sel_mod(sel, len, (k - 1) as nat);
        let m = (sel + (k - 1)) % len;
        vstd::arithmetic::div_mod::lemma_mod_bound(sel + (k - 1), len);
        vstd::arithmetic::div_mod::lemma_add_mod_noop(sel + (k - 1), 1, len);
        if len == 1 {
            vstd::arithmetic::div_mod::lemma_mod_bound(sel + k, len);
        } else {
            lemma_small_mod(1, len as nat);
            if m == len - 1 {
                vstd::arithmetic::div_mod::lemma_mod_self_0(len);
            } else {
                lemma_small_mod((m + 1) as nat, len as nat);
            }
        }
    }
}

/// Taking exactly as many forward steps as there are keys brings the cursor
/// back to where it started.
pub proof fn lemma_select_cycle(sel: int, len: int)
    requires
        0 <= sel < len,
    ensures
        iter_next_sel(sel, len, len as nat) == sel,
{
    lemma_iter_next_sel_mod(sel, len, len as nat);
    lemma_mod_add_multiples_vanish(sel, len);
    lemma_small_mod(sel as nat, len as nat);
}

/// A backward step undoes a forward step, and the other way round.
pub proof fn lemma_select_prev_inverse(sel: int, len: int)
    requires
        0 <= sel < len,
    ensures
        prev_sel(next_sel(sel, len), len) == sel,
        next_sel(prev_sel(sel, len), len) == sel,
{
}

/// How the store changes under `change_value`: the selected value moves by
/// `amount`, saturating; an empty store is left untouched.
pub open spec fn adjusted_config(pre: Config, post: Config, amount: int) -> bool {
    &&& post.keys == pre.keys
    &&& post.selected_value == pre.selected_value
    &&& (pre.keys@.len() == 0 ==> post.values == pre.values)
    &&& (pre.keys@.len() > 0 ==> post.values@ == pre.values@.update(
        pre.selected_value as int,
        sat_add_i64(pre.values@[pre.selected_value as int] as int, amount) as i64,
    ))
    &&& post.wf()
}

/// The parameter store: parallel key and value columns plus the selection
/// cursor. Keys are unique; the cursor is in range whenever keys exist.
pub struct Config {
    pub keys: Vec<String>,
    pub values: Vec<i64>,
    pub selected_value: usize,
}

impl Config {
    /// Structural invariant of the store.
    pub open spec fn wf(self) -> bool {
        &&& self.keys@.len() == self.values@.len()
        &&& (self.keys@.len() == 0 ==> self.selected_value == 0)
        &&& (self.keys@.len() > 0 ==> (self.selected_value as int) < self.keys@.len())
        &&& forall|i: int, j: int|
            0 <= i < j < self.keys@.len() ==> self.keys@[i]@ != self.keys@[j]@
    }

    /// Whether some key's characters equal `key`.
    pub open spec fn has_key(self, key: Seq<char>) -> bool {
        exists|i: int| 0 <= i < self.keys@.len() && self.keys@[i]@ == key
    }

    /// The position of `key` among the keys.
    pub open spec fn index_of(self, key: Seq<char>) -> int {
        choose|i: int| 0 <= i < self.keys@.len() && self.keys@[i]@ == key
    }

    /// The stored value for `key`, or `default` where no such key exists.
    pub open spec fn spec_get_or(self, key: Seq<char>, default: i64) -> i64 {
        if self.has_key(key) {
            self.values@[self.index_of(key)]
        } else {
            default
        }
    }

    /// Build a store from its key and value columns; the cursor starts on
    /// the first key.
    pub fn new(keys: Vec<String>, values: Vec<i64>) -> (r: Config)
        requires
            keys@.len() == values@.len(),
            forall|i: int, j: int| 0 <= i < j < keys@.len() ==> keys@[i]@ != keys@[j]@,
        ensures
            r.keys == keys,
            r.values == values,
            r.selected_value == 0,
            r.wf(),
    {
        Config { keys, values, selected_value: 0 }
    }

    /// Look `key` up; absent keys fall back to `default` and never fail.
    pub fn get_with_default(&self, key: &str, default: i64) -> (r: i64)
        requires
            self.wf(),
        ensures
            r == self.spec_get_or(key@, default),
    {
        let needle: String = key.to_owned();
        let n = self.keys.len();
        let mut i: usize = 0;
        while i < n
            invariant
                n == self.keys@.len(),
                self.wf(),
                needle@ == key@,
                i <= n,
                forall|j: int| 0 <= j < i ==> self.keys@[j]@ != key@,
            decreases n - i,
        {
            if self.keys[i] == needle {
                return self.values[i];
            }
            i = i + 1;
        }
        default
    }

    /// Move the cursor one key forward, wrapping past the last key.
    pub fn next_key(&mut self)
        requires
            old(self).wf(),
        ensures
            final(self).keys == old(self).keys,
            final(self).values == old(self).values,
            final(self).selected_value as int == next_sel(
                old(self).selected_value as int,
                old(self).keys@.len() as int,
            ),
            final(self).wf(),
    {
        if self.keys.len() == 0 {
            return ;
        }
        if self.selected_value == self.keys.len() - 1 {
            self.selected_value = 0;
        } else {
            self.selected_value = self.selected_value + 1;
        }
    }

    /// Move the cursor one key backward, wrapping past the first key.
    pub fn prev_key(&mut self)
        requires
            old(self).wf(),
        ensures
            final(self).keys == old(self).keys,
            final(self).values == old(self).values,
            final(self).selected_value as int == prev_sel(
                old(self).selected_value as int,
                old(self).keys@.len() as int,
            ),
            final(self).wf(),
    {
        if self.keys.len() == 0 {
            return ;
        }
        if self.selected_value == 0 {
            self.selected_value = self.keys.len() - 1;
        } else {
            self.selected_value = self.selected_value - 1;
        }
    }

    /// Add `amount` to the selected value, saturating at the `i64` range
    /// ends; a store without keys is left untouched.
    pub fn change_value(&mut self, amount: i64)
        requires
            old(self).wf(),
        ensures
            adjusted_config(*old(self), *final(self), amount as int),
    {
        if self.keys.len() == 0 {
            return ;
        }
        let sel = self.selected_value;
        let v = self.values[sel];
        let w: i64 = if amount >= 0 {
            if v > i64::MAX - amount {
                i64::MAX
            } else {
                v + amount
            }
        } else {
            if v < i64::MIN - amount {
                i64::MIN
            } else {
                v + amount
            }
        };
        self.values.set(sel, w);
    }
}

} // verus!
