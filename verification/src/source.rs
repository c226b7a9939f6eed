//! The random source capability: the sampler draws raw 64-bit words from it
//! and turns them into index picks and candidate offsets by a fixed decoding.
//!
//! A deterministic source exposes its remaining words as a mathematical
//! stream; the whole sampling run is then a function of that stream, which is
//! what makes replayed runs provably identical.

use vstd::prelude::*;

use crate::RADIUS_LIMIT;
use crate::geometry::ints;

verus! {

/// The first raw word of a stream; an exhausted stream yields zero.
pub open spec fn first_word(s: Seq<u64>) -> u64 {
    if s.len() == 0 {
        0u64
    } else {
        s[0]
    }
}

/// The stream after one word has been consumed.
pub open spec fn rest_words(s: Seq<u64>) -> Seq<u64> {
    if s.len() == 0 {
        s
    } else {
        s.skip(1)
    }
}

/// The stream after `n` words have been consumed.
pub open spec fn drop_words(s: Seq<u64>, n: nat) -> Seq<u64>
    decreases n,
{
    if n == 0 {
        s
    } else {
        drop_words(rest_words(s), (n - 1) as nat)
    }
}

/// How a raw word is turned into a uniform pick among `n` alternatives.
pub open spec fn pick_decode(s: Seq<u64>, n: int) -> int
    recommends
        n >= 1,
{
    (first_word(s) as int) % n
}

/// How a raw word is turned into one offset coordinate in `[-max_len, max_len]`.
pub open spec fn component_decode(w: u64, max_len: int) -> int
    recommends
        max_len >= 1,
{
    (w as int) % (2 * max_len + 1) - max_len
}

/// How `dim` raw words are turned into a candidate offset vector.
pub open spec fn offset_decode(s: Seq<u64>, dim: nat, max_len: int) -> Seq<int>
    decreases dim,
{
    if dim == 0 {
        Seq::empty()
    } else {
        seq![component_decode(first_word(s), max_len)] + offset_decode(
            rest_words(s),
            (dim - 1) as nat,
            max_len,
        )
    }
}

pub proof fn lemma_drop_words_len(s: Seq<u64>, n: nat)
    ensures
        drop_words(s, n).len() == if s.len() >= n {
            s.len() - n
        } else {
            0
        },
    decreases n,
{
    if n > 0 {
        lemma_drop_words_len(rest_words(s), (n - 1) as nat);
    }
}

/// Consuming one more word takes the rest of what was already dropped.
pub proof fn lemma_drop_words_step(s: Seq<u64>, n: nat)
    ensures
        drop_words(s, (n + 1) as nat) == rest_words(drop_words(s, n)),
    decreases n,
{
    if n == 0 {
        assert(drop_words(s, 1nat) == drop_words(rest_words(s), 0nat));
    } else {
        lemma_drop_words_step(rest_words(s), (n - 1) as nat);
        assert(drop_words(s, (n + 1) as nat) == drop_words(rest_words(s), n));
        assert(drop_words(s, n) == drop_words(rest_words(s), (n - 1) as nat));
    }
}

/// Extending the decoded offset by one more axis appends the decoding of the
/// next undrawn word.
pub proof fn lemma_offset_decode_snoc(s: Seq<u64>, dim: nat, max_len: int)
    ensures
        offset_decode(s, (dim + 1) as nat, max_len) == offset_decode(s, dim, max_len).push(
            component_decode(first_word(drop_words(s, dim)), max_len),
        ),
    decreases dim,
{
    let head = seq![component_decode(first_word(s), max_len)];
    if dim == 0 {
        assert(offset_decode(s, 1nat, max_len) == head + offset_decode(
            rest_words(s),
            0nat,
            max_len,
        ));
        assert(offset_decode(rest_words(s), 0nat, max_len) == Seq::<int>::empty());
        assert(head + Seq::<int>::empty() =~= Seq::<int>::empty().push(component_decode(
            first_word(s),
            max_len,
        )));
        assert(offset_decode(s, 0nat, max_len) == Seq::<int>::empty());
        assert(drop_words(s, 0nat) == s);
    } else {
        lemma_offset_decode_snoc(rest_words(s), (dim - 1) as nat, max_len);
        let tail = offset_decode(rest_words(s), (dim - 1) as nat, max_len);
        let next = component_decode(first_word(drop_words(rest_words(s), (dim - 1) as nat)), max_len);
        assert(drop_words(s, dim) == drop_words(rest_words(s), (dim - 1) as nat));
        assert(offset_decode(s, (dim + 1) as nat, max_len) == head + offset_decode(
            rest_words(s),
            dim,
            max_len,
        ));
        assert(offset_decode(rest_words(s), dim, max_len) == tail.push(next));
        assert(head + tail.push(next) =~= (head + tail).push(next));
    }
}

/// A supplier of uniform randomness for the sampler.
///
/// `capacity` bounds how many words the source will still hand out; the
/// sampler stops once fewer words remain than one expansion round needs,
/// which is what bounds its running time.  A `deterministic` source exposes
/// the exact words it will produce as `stream`, and every draw is then pinned
/// to the decoding of that stream.
pub trait RandomSource: Sized {
    spec fn deterministic(&self) -> bool;

    spec fn stream(&self) -> Seq<u64>;

    spec fn capacity(&self) -> nat;

    /// Whether at least `n` words can still be drawn.
    fn has_words(&self, n: usize) -> (b: bool)
        ensures
            b ==> self.capacity() >= n,
            self.deterministic() ==> (b <==> self.stream().len() >= n),
    ;

    /// Draws a uniformly random index below `n`.
    fn pick_index(&mut self, n: usize) -> (i: usize)
        requires
            n >= 1,
        ensures
            i < n,
            final(self).capacity() <= old(self).capacity(),
            old(self).capacity() >= 1 ==> final(self).capacity() < old(self).capacity(),
            old(self).deterministic() ==> {
                &&& final(self).deterministic()
                &&& final(self).stream() == rest_words(old(self).stream())
                &&& i as int == pick_decode(old(self).stream(), n as int)
            },
    ;

    /// Draws a candidate displacement of dimension `dim`, each coordinate in
    /// `[-max_len, max_len]`.  An implementation should aim for a displacement
    /// whose length lies in `[min_len, max_len]`; nothing the sampler
    /// guarantees depends on how well it does.
    fn offset_vector(&mut self, dim: usize, min_len: i64, max_len: i64) -> (v: Vec<i64>)
        requires
            1 <= min_len <= max_len,
            max_len <= 3 * RADIUS_LIMIT,
        ensures
            v@.len() == dim,
            forall|i: int| 0 <= i < dim ==> -max_len <= #[trigger] v@[i] <= max_len,
            final(self).capacity() <= old(self).capacity(),
            old(self).deterministic() ==> {
                &&& final(self).deterministic()
                &&& final(self).stream() == drop_words(old(self).stream(), dim as nat)
                &&& ints(v@) == offset_decode(old(self).stream(), dim as nat, max_len as int)
            },
    ;
}

/// Turns one raw word into one offset coordinate.
fn decode_component(w: u64, max_len: i64) -> (c: i64)
    requires
        1 <= max_len,
        max_len <= 3 * RADIUS_LIMIT,
    ensures
        c as int == component_decode(w, max_len as int),
        -max_len <= c <= max_len,
{
    let m: u64 = 2 * (max_len as u64) + 1;
    let r: u64 = w % m;
    (r as i64) - max_len
}

/// A deterministic random source: it replays a fixed script of raw words and
/// yields zero once the script is exhausted.  Two sources built over the same
/// script behave identically, which is what makes a sampling run replayable.
pub struct ScriptedSource {
    words: Vec<u64>,
    next: usize,
}

impl ScriptedSource {
    /// The words not yet consumed.
    pub closed spec fn remaining(&self) -> Seq<u64> {
        if self.next <= self.words@.len() {
            self.words@.skip(self.next as int)
        } else {
            Seq::empty()
        }
    }

    pub fn new(words: Vec<u64>) -> (s: Self)
        ensures
            s.deterministic(),
            s.stream() == words@,
    {
        let s = ScriptedSource { words, next: 0 };
        proof {
            assert(s.remaining() =~= s.words@);
        }
        s
    }

    /// Consumes and returns the next scripted word, or zero when exhausted.
    fn next_word(&mut self) -> (w: u64)
        ensures
            w == first_word(old(self).remaining()),
            final(self).remaining() == rest_words(old(self).remaining()),
            final(self).remaining().len() <= old(self).remaining().len(),
            old(self).remaining().len() >= 1 ==> final(self).remaining().len() < old(
                self,
            ).remaining().len(),
    {
        if self.next < self.words.len() {
            let w = self.words[self.next];
            proof {
                assert(old(self).remaining()[0] == self.words@[self.next as int]);
                assert(self.words@.skip(self.next as int).skip(1) =~= self.words@.skip(
                    self.next as int + 1,
                ));
            }
            self.next = self.next + 1;
            w
        } else {
            0
        }
    }
}

impl RandomSource for ScriptedSource {
    open spec fn deterministic(&self) -> bool {
        true
    }

    open spec fn stream(&self) -> Seq<u64> {
        self.remaining()
    }

    fn has_words(&self, n: usize) -> (b: bool) {
        if self.next >= self.words.len() {
            n == 0
        } else {
            self.words.len() - self.next >= n
        }
    }

    open spec fn capacity(&self) -> nat {
        self.remaining().len()
    }

    fn pick_index(&mut self, n: usize) -> (i: usize) {
        let w = self.next_word();
        (w % (n as u64)) as usize
    }

    fn offset_vector(&mut self, dim: usize, min_len: i64, max_len: i64) -> (v: Vec<i64>) {
        let ghost s0 = self.remaining();
        let mut v: Vec<i64> = Vec::new();
        let mut t: usize = 0;
        proof {
            assert(ints(v@) =~= offset_decode(s0, 0nat, max_len as int));
        }
        while t < dim
            invariant
                t <= dim,
                v@.len() == t,
                1 <= max_len <= 3 * RADIUS_LIMIT,
                forall|i: int| 0 <= i < t ==> -max_len <= #[trigger] v@[i] <= max_len,
                self.remaining() == drop_words(s0, t as nat),
                self.remaining().len() <= s0.len(),
                ints(v@) == offset_decode(s0, t as nat, max_len as int),
            decreases dim - t,
        {
            let w = self.next_word();
            let c = decode_component(w, max_len);
            proof {
                lemma_offset_decode_snoc(s0, t as nat, max_len as int);
                lemma_drop_words_step(s0, t as nat);
                assert(ints(v@).push(c as int) =~= ints(v@.push(c)));
                lemma_drop_words_len(s0, t as nat);
                lemma_drop_words_len(s0, (t + 1) as nat);
            }
            v.push(c);
            t = t + 1;
        }
        v
    }
}

/// The thread-local generator of the `rand` crate, opaque to verification.
#[verifier::external_type_specification]
#[verifier::external_body]
pub struct ExThreadRng(rand::rngs::ThreadRng);

/// Relies on rand::thread_rng: a handle to the thread-local random generator.
#[verifier::external_body]
fn fresh_thread_rng() -> rand::rngs::ThreadRng {
    rand::thread_rng()
}

/// Relies on rand::RngCore::next_u64 for ThreadRng: one 64-bit word of
/// randomness.  Nothing is assumed of its value.
#[verifier::external_body]
fn thread_rng_word(rng: &mut rand::rngs::ThreadRng) -> u64 {
    rand::RngCore::next_u64(rng)
}

/// A random source backed by the thread-local generator of the `rand` crate.
///
/// It hands out at most `budget` words, so a sampling run driven by it always
/// terminates even when the density oracle never rejects; pick the budget
/// generously.  Its draws are not replayable, and the sampler promises
/// nothing about a run driven by it beyond the separation invariant.
pub struct ThreadSource {
    rng: rand::rngs::ThreadRng,
    budget: usize,
}

impl ThreadSource {
    pub fn new(budget: usize) -> (s: Self)
        ensures
            s.capacity() == budget,
            !s.deterministic(),
    {
        ThreadSource { rng: fresh_thread_rng(), budget }
    }

    /// Draws one word, or yields zero once the budget is spent.
    fn next_word(&mut self) -> (w: u64)
        ensures
            final(self).capacity() <= old(self).capacity(),
            old(self).capacity() >= 1 ==> final(self).capacity() < old(self).capacity(),
    {
        if self.budget > 0 {
            self.budget = self.budget - 1;
            thread_rng_word(&mut self.rng)
        } else {
            0
        }
    }
}

impl RandomSource for ThreadSource {
    open spec fn deterministic(&self) -> bool {
        false
    }

    open spec fn stream(&self) -> Seq<u64> {
        Seq::empty()
    }

    closed spec fn capacity(&self) -> nat {
        self.budget as nat
    }

    fn has_words(&self, n: usize) -> (b: bool) {
        self.budget >= n
    }

    fn pick_index(&mut self, n: usize) -> (i: usize) {
        let w = self.next_word();
        (w % (n as u64)) as usize
    }

    fn offset_vector(&mut self, dim: usize, min_len: i64, max_len: i64) -> (v: Vec<i64>) {
        let mut v: Vec<i64> = Vec::new();
        let mut t: usize = 0;
        while t < dim
            invariant
                t <= dim,
                v@.len() == t,
                1 <= max_len <= 3 * RADIUS_LIMIT,
                forall|i: int| 0 <= i < t ==> -max_len <= #[trigger] v@[i] <= max_len,
                self.capacity() <= old(self).capacity(),
            decreases dim - t,
        {
            let w = self.next_word();
            let c = decode_component(w, max_len);
            v.push(c);
            t = t + 1;
        }
        v
    }
}

} // verus!
