//! A sequence that is played round and round: a list of values and a cursor
//! that walks through it and starts again at the front.

use vstd::arithmetic::div_mod::{
    lemma_add_mod_noop, lemma_mod_add_multiples_vanish, lemma_mod_bound, lemma_small_mod,
};
use vstd::prelude::*;

verus! {

/// What a looping sequence holds: its values and its cursor.
pub struct LoopingSequenceView<T> {
    /// The values, in the order in which they were put in.
    pub data: Seq<T>,
    /// The stored cursor. It may lie past the end after the values were replaced.
    pub counter: nat,
}

impl<T> LoopingSequenceView<T> {
    /// The position that the next call of `next` reads: the stored cursor,
    /// or the front if that lies past the end.
    pub open spec fn cursor(self) -> int {
        if self.counter >= self.data.len() {
            0
        } else {
            self.counter as int
        }
    }

    /// What the next call of `next` returns.
    pub open spec fn peek(self) -> Option<T> {
        if self.data.len() == 0 {
            None
        } else {
            Some(self.data[self.cursor()])
        }
    }

    /// The sequence after one call of `next`: the cursor has moved on by one
    /// and is back at the front after the last value.
    pub open spec fn advance(self) -> Self {
        if self.data.len() == 0 {
            LoopingSequenceView { data: self.data, counter: 0 }
        } else {
            LoopingSequenceView {
                data: self.data,
                counter: ((self.cursor() + 1) % (self.data.len() as int)) as nat,
            }
        }
    }

    /// The sequence after `k` calls of `next`.
    pub open spec fn advance_by(self, k: nat) -> Self
        decreases k,
    {
        if k == 0 {
            self
        } else {
            self.advance_by((k - 1) as nat).advance()
        }
    }

    /// The values that `k` calls of `next` return, in the order of the calls.
    pub open spec fn yields(self, k: nat) -> Seq<T>
        decreases k,
    {
        if k == 0 {
            Seq::empty()
        } else {
            match self.advance_by((k - 1) as nat).peek() {
                Some(value) => self.yields((k - 1) as nat).push(value),
                None => self.yields((k - 1) as nat),
            }
        }
    }

    /// The position that the last call of `next` read: one before the cursor,
    /// the last position where the cursor is at the front.
    pub open spec fn current_step(self) -> int {
        if self.data.len() == 0 {
            0
        } else {
            (self.counter + self.data.len() - 1) % (self.data.len() as int)
        }
    }

    /// The sequence cut or padded with `value` to `new_length` values, the
    /// cursor wrapped into the new length.
    pub open spec fn resized(self, new_length: nat, value: T) -> Self {
        if new_length == 0 {
            LoopingSequenceView { data: Seq::empty(), counter: 0 }
        } else {
            LoopingSequenceView {
                data: Seq::new(
                    new_length,
                    |i: int|
                        if i < self.data.len() {
                            self.data[i]
                        } else {
                            value
                        },
                ),
                counter: (self.counter % new_length) as nat,
            }
        }
    }

    /// The sequence with the value at `step` replaced; unchanged where `step`
    /// is no position of it.
    pub open spec fn with_step(self, step: int, value: T) -> Self {
        if 0 <= step < self.data.len() {
            LoopingSequenceView { data: self.data.update(step, value), counter: self.counter }
        } else {
            self
        }
    }
}

/// After `k` calls of `next` the cursor of a sequence that is not empty has
/// gone `k` places round, and the calls have returned the values from the
/// cursor on, round and round.
pub proof fn lemma_advance_by<T>(s: LoopingSequenceView<T>, k: nat)
    requires
        s.data.len() > 0,
    ensures
        s.advance_by(k).data == s.data,
        s.advance_by(k).cursor() == (s.cursor() + k) % (s.data.len() as int),
        s.yields(k).len() == k,
        forall|j: int|
            0 <= j < k ==> #[trigger] s.yields(k)[j] == s.data[(s.cursor() + j) % (
            s.data.len() as int)],
    decreases k,
{
    let n = s.data.len() as int;
    if k == 0 {
        lemma_small_mod(s.cursor() as nat, n as nat);
    } else {
        let k1 = (k - 1) as nat;
        lemma_advance_by(s, k1);
        let before = s.advance_by(k1);
        let a = s.cursor() + k1;
        lemma_mod_bound(a, n);
        lemma_mod_bound(a + 1, n);
        lemma_add_mod_noop(a, 1, n);
        if n == 1 {
            assert(((a % n) + 1) % n == (a + 1) % n);
        } else {
            lemma_small_mod(1, n as nat);
        }
        assert(before.cursor() == a % n);
        assert(before.advance().counter == (a + 1) % n);
    }
}

/// A sequence whose cursor is at the front returns, in as many calls of
/// `next` as it has values, every value once, in the order in which they were
/// put in, and has its cursor at the front again. So it is after `new`, after
/// `reset`, and after every full round.
pub proof fn lemma_full_cycle<T>(s: LoopingSequenceView<T>)
    requires
        s.cursor() == 0,
    ensures
        s.yields(s.data.len()) == s.data,
        s.advance_by(s.data.len()).data == s.data,
        s.advance_by(s.data.len()).cursor() == 0,
{
    let n = s.data.len();
    if n > 0 {
        lemma_advance_by(s, n);
        assert forall|j: int| 0 <= j < n implies s.yields(n)[j] == s.data[j] by {
            lemma_small_mod(j as nat, n);
        }
        assert(s.yields(n) =~= s.data);
        vstd::arithmetic::div_mod::lemma_mod_self_0(n as int);
    } else {
        assert(s.yields(0) =~= s.data);
    }
}

/// A list of values with a cursor that goes round.
#[derive(Debug)]
pub struct LoopingSequence<T> {
    data: Vec<T>,
    counter: usize,
}

impl<T> View for LoopingSequence<T> {
    type V = LoopingSequenceView<T>;

    closed spec fn view(&self) -> LoopingSequenceView<T> {
        LoopingSequenceView { data: self.data@, counter: self.counter as nat }
    }
}

impl<T: Copy> LoopingSequence<T> {
    /// A sequence of the values `data` with the cursor at the front.
    pub fn new(data: Vec<T>) -> (s: Self)
        ensures
            s@ == (LoopingSequenceView { data: data@, counter: 0 }),
    {
        Self { data: data, counter: 0 }
    }

    /// Takes all values out and puts the cursor at the front.
    pub fn clear(&mut self)
        ensures
            final(self)@ == (LoopingSequenceView { data: Seq::<T>::empty(), counter: 0 }),
    {
        self.counter = 0;
        self.data.clear();
    }

    /// Puts the cursor at the front.
    pub fn reset(&mut self)
        ensures
            final(self)@ == (LoopingSequenceView { data: old(self)@.data, counter: 0 }),
    {
        self.counter = 0;
    }

    /// Puts `value` behind the last value.
    pub fn append(&mut self, value: T)
        ensures
            final(self)@ == (LoopingSequenceView {
                data: old(self)@.data.push(value),
                counter: old(self)@.counter,
            }),
    {
        self.data.push(value);
    }

    /// Cuts or pads the sequence to `new_length` values; new places hold
    /// `value`. The cursor is wrapped into the new length. With a length of 0
    /// the sequence is cleared.
    pub fn resize(&mut self, new_length: usize, value: T)
        ensures
            final(self)@ == old(self)@.resized(new_length as nat, value),
            final(self)@.data.len() == new_length,
            new_length > 0 ==> final(self)@.counter < new_length,
    {
        if new_length == 0 {
            self.clear();
            return ;
        }
        if self.counter >= new_length {
            self.counter = self.counter % new_length;
        } else {
            proof {
                lemma_small_mod(self.counter as nat, new_length as nat);
            }
        }
        if self.data.len() > new_length {
            self.data.truncate(new_length);
        }
        while self.data.len() < new_length
            invariant
                self.counter == old(self)@.counter % (new_length as nat),
                self.data.len() <= new_length,
                self.data.len() < new_length ==> self.data.len() >= old(self)@.data.len(),
                forall|i: int|
                    0 <= i < self.data.len() ==> self.data[i] == if i < old(self)@.data.len() {
                        old(self)@.data[i]
                    } else {
                        value
                    },
            decreases new_length - self.data.len(),
        {
            self.data.push(value);
        }
        assert(self@.data =~= old(self)@.resized(new_length as nat, value).data);
    }

    /// Replaces the values by `data`. The cursor stays where it is.
    pub fn set_data(&mut self, data: Vec<T>)
        ensures
            final(self)@ == (LoopingSequenceView { data: data@, counter: old(self)@.counter }),
    {
        self.data = data;
    }

    /// A copy of the values.
    pub fn clone_data(&self) -> (data: Vec<T>)
        ensures
            data@ == self@.data,
    {
        let mut data: Vec<T> = Vec::new();
        let mut i: usize = 0;
        while i < self.data.len()
            invariant
                i <= self.data.len(),
                data@ == self.data@.take(i as int),
            decreases self.data.len() - i,
        {
            data.push(self.data[i]);
            i = i + 1;
        }
        assert(self.data@.take(i as int) =~= self.data@);
        data
    }

    /// Replaces the value at `step`. Nothing happens if the sequence has no
    /// such position.
    pub fn set_step(&mut self, step: usize, value: T)
        ensures
            final(self)@ == old(self)@.with_step(step as int, value),
    {
        if step < self.data.len() {
            self.data[step] = value;
        }
    }

    /// The position that the last call of `next` read.
    pub fn get_current_step(&self) -> (step: usize)
        ensures
            step == self@.current_step(),
            self@.data.len() > 0 ==> step < self@.data.len(),
    {
        let len = self.data.len();
        if len == 0 {
            return 0;
        }
        if self.counter == 0 {
            proof {
                lemma_small_mod((len - 1) as nat, len as nat);
            }
            len - 1
        } else {
            proof {
                lemma_mod_add_multiples_vanish(self.counter - 1, len as int);
                lemma_mod_bound(self.counter - 1, len as int);
            }
            (self.counter - 1) % len
        }
    }

    /// Returns the value at the cursor and moves the cursor on by one, to the
    /// front after the last value. Returns nothing if the sequence is empty.
    pub fn next(&mut self) -> (value: Option<T>)
        ensures
            value == old(self)@.peek(),
            final(self)@ == old(self)@.advance(),
            value is Some <==> old(self)@.data.len() > 0,
            final(self)@.data.len() > 0 ==> final(self)@.counter < final(self)@.data.len(),
    {
        if self.counter >= self.data.len() {
            self.counter = 0;
        }
        if self.data.len() == 0 {
            None
        } else {
            let value = self.data[self.counter];
            proof {
                if self.counter + 1 < self.data.len() {
                    lemma_small_mod((self.counter + 1) as nat, self.data.len() as nat);
                } else {
                    vstd::arithmetic::div_mod::lemma_mod_self_0(self.data.len() as int);
                }
            }
            self.counter = if self.counter + 1 == self.data.len() {
                0
            } else {
                self.counter + 1
            };
            Some(value)
        }
    }

    /// The number of values.
    pub fn len(&self) -> (n: usize)
        ensures
            n == self@.data.len(),
    {
        self.data.len()
    }
}

impl<T: Copy> Clone for LoopingSequence<T> {
    /// A sequence with the same values and the same cursor.
    fn clone(&self) -> (s: Self)
        ensures
            s@ == self@,
    {
        Self { data: self.clone_data(), counter: self.counter }
    }
}

impl<T: Copy> Default for LoopingSequence<T> {
    /// The empty sequence.
    fn default() -> (s: Self)
        ensures
            s@ == (LoopingSequenceView { data: Seq::<T>::empty(), counter: 0 }),
    {
        Self { data: Vec::new(), counter: 0 }
    }
}

} // verus!
