use vstd::prelude::*;

verus! {

/// Why an offset chain could not be resolved.
#[derive(Clone, Copy, Debug, PartialEq, Eq, Structural)]
pub enum ChainError {
    /// The chain holds no offsets.
    InvalidChain,
    /// An intermediate address came to zero; it was not read through.
    NullDereference,
}

/// The sum of two addresses, wrapped to the address width.
pub open spec fn wrapped_sum(a: usize, b: usize) -> usize {
    if a + b > usize::MAX {
        (a + b - usize::MAX - 1) as usize
    } else {
        (a + b) as usize
    }
}


/// The outcome of walking `offsets` from position `pos` with running address
/// `acc`, where `mem(a)` is the address-sized word stored at address `a`.
/// Every offset before the last is added to the running address, which must
/// then be non-zero and is replaced by the word stored there; the last offset
/// is added and the sum is the result.
pub open spec fn walk_from(
    offsets: Seq<usize>,
    pos: int,
    acc: usize,
    mem: spec_fn(usize) -> usize,
) -> Result<usize, ChainError>
    decreases offsets.len() - pos,
{
    if pos < 0 || pos + 1 >= offsets.len() {
        Ok(wrapped_sum(acc, offsets[offsets.len() - 1]))
    } else {
        let next = wrapped_sum(acc, offsets[pos]);
        if next == 0 {
            Err(ChainError::NullDereference)
        } else {
            walk_from(offsets, pos + 1, mem(next), mem)
        }
    }
}

/// The address that `offsets` resolves to in the memory `mem`, starting
/// from address zero.
pub open spec fn resolve(offsets: Seq<usize>, mem: spec_fn(usize) -> usize) -> Result<usize, ChainError> {
    if offsets.len() == 0 {
        Err(ChainError::InvalidChain)
    } else {
        walk_from(offsets, 0, 0, mem)
    }
}

/// Every word that `load` hands back for a non-zero address is the one that
/// `mem` holds there.
pub open spec fn loads_from<F: Fn(usize) -> usize>(load: F, mem: spec_fn(usize) -> usize) -> bool {
    forall|a: usize, w: usize| a != 0 && #[trigger] load.ensures((a,), w) ==> w == mem(a)
}

/// A chain of one offset resolves to that offset itself, whatever memory
/// holds: nothing is read.
pub proof fn lemma_single_offset(addr: usize, mem: spec_fn(usize) -> usize)
    ensures
        resolve(seq![addr], mem) == Ok::<usize, ChainError>(addr),
{
}

/// An empty chain resolves to no address.
pub proof fn lemma_empty_chain(mem: spec_fn(usize) -> usize)
    ensures
        resolve(Seq::<usize>::empty(), mem) == Err::<usize, ChainError>(ChainError::InvalidChain),
{
}

/// A chain of two or more offsets whose first offset is zero fails with a
/// null dereference, whatever memory holds: nothing is read.
pub proof fn lemma_null_first_step(offsets: Seq<usize>, mem: spec_fn(usize) -> usize)
    requires
        offsets.len() >= 2,
        offsets[0] == 0,
    ensures
        resolve(offsets, mem) == Err::<usize, ChainError>(ChainError::NullDereference),
{
}

/// Resolution is a function of the offsets and the memory contents alone:
/// two observations of the same memory resolve a chain to the same result.
pub proof fn lemma_resolution_deterministic(
    offsets: Seq<usize>,
    mem1: spec_fn(usize) -> usize,
    mem2: spec_fn(usize) -> usize,
)
    requires
        forall|a: usize| #[trigger] mem1(a) == mem2(a),
    ensures
        resolve(offsets, mem1) == resolve(offsets, mem2),
{
    assert(mem1 == mem2);
}

/// Adding an offset to an address wraps modulo the address width.
pub proof fn lemma_wrapped_sum_modular(a: usize, b: usize)
    ensures
        wrapped_sum(a, b) as int == (a + b) % (usize::MAX as int + 1),
{
    let m = usize::MAX as int + 1;
    if a + b > usize::MAX {
        vstd::arithmetic::div_mod::lemma_mod_sub_multiples_vanish(a + b, m);
        vstd::arithmetic::div_mod::lemma_small_mod((a + b - m) as nat, m as nat);
    } else {
        vstd::arithmetic::div_mod::lemma_small_mod((a + b) as nat, m as nat);
    }
}

/// A chain of two offsets reads the word at the first offset, unless that is
/// zero, and adds the second to it modulo the address width.
pub proof fn lemma_two_offsets_wrap(a: usize, b: usize, mem: spec_fn(usize) -> usize)
    ensures
        a == 0 ==> resolve(seq![a, b], mem) == Err::<usize, ChainError>(ChainError::NullDereference),
        a != 0 ==> resolve(seq![a, b], mem) is Ok
            && resolve(seq![a, b], mem)->Ok_0 as int == (mem(a) + b) % (usize::MAX as int + 1),
{
    let s = seq![a, b];
    lemma_wrapped_sum_modular(mem(a), b);
    assert(wrapped_sum(0, a) == a);
    assert(s.len() == 2 && s[0] == a && s[1] == b);
    assert(walk_from(s, 1, mem(a), mem) == Ok::<usize, ChainError>(wrapped_sum(mem(a), b)));
}

/// A chain of offsets into the address space, resolved to the address of a
/// value of type `T`.
#[derive(Debug)]
pub struct LocalMember<T> {
    offsets: Vec<usize>,
    _phantom: core::marker::PhantomData<T>,
}

impl<T> View for LocalMember<T> {
    type V = Seq<usize>;

    /// The offsets, in the order in which they are applied.
    closed spec fn view(&self) -> Seq<usize> {
        self.offsets@
    }
}

impl<T> Clone for LocalMember<T> {
    /// A member with the same offsets.
    fn clone(&self) -> (r: Self)
        ensures
            r@ == self@,
    {
        LocalMember { offsets: self.offsets.clone(), _phantom: core::marker::PhantomData }
    }
}

impl<T: Copy> Default for LocalMember<T> {
    /// A member with no offsets.
    fn default() -> (r: Self)
        ensures
            r@ == Seq::<usize>::empty(),
    {
        Self::new()
    }
}

impl<T: Copy> LocalMember<T> {
    /// A member with no offsets; it resolves to no address until offsets are set.
    pub fn new() -> (r: Self)
        ensures
            r@ == Seq::<usize>::empty(),
    {
        LocalMember { offsets: Vec::new(), _phantom: core::marker::PhantomData }
    }

    /// A member with the given offsets.
    pub fn new_offset(offsets: Vec<usize>) -> (r: Self)
        ensures
            r@ == offsets@,
    {
        LocalMember { offsets, _phantom: core::marker::PhantomData }
    }

    /// Replaces the whole offset sequence.
    pub fn set_offsets(&mut self, new_offsets: Vec<usize>)
        ensures
            final(self)@ == new_offsets@,
    {
        self.offsets = new_offsets;
    }

    /// Resolves the chain to an address. `load(a)` reads the address-sized
    /// word stored at the non-zero address `a`; it is called at most once for
    /// each offset before the last, in order, and never on address zero.
    /// Where `load` reads a fixed memory `mem`, the result is `resolve(self@, mem)`.
    pub fn resolve_address<F: Fn(usize) -> usize>(&self, load: F) -> (r: Result<usize, ChainError>)
        requires
            forall|a: usize| a != 0 ==> #[trigger] load.requires((a,)),
        ensures
            forall|mem: spec_fn(usize) -> usize| #[trigger] loads_from(load, mem) ==> r == resolve(self@, mem),
            r == Err::<usize, ChainError>(ChainError::InvalidChain) <==> self@.len() == 0,
            self@.len() > 0 ==> (r is Ok || r == Err::<usize, ChainError>(ChainError::NullDereference)),
            self@.len() == 1 ==> r == Ok::<usize, ChainError>(self@[0]),
            self@.len() >= 2 && self@[0] == 0 ==> r == Err::<usize, ChainError>(ChainError::NullDereference),
    {
        let n = self.offsets.len();
        if n == 0 {
            return Err(ChainError::InvalidChain);
        }
        let mut acc: usize = 0;
        let mut i: usize = 0;
        while i + 1 < n
            invariant
                n == self@.len(),
                n >= 1,
                i + 1 <= n,
                i == 0 ==> acc == 0,
                i > 0 ==> self@[0] != 0,
                forall|a: usize| a != 0 ==> #[trigger] load.requires((a,)),
                forall|mem: spec_fn(usize) -> usize| #[trigger] loads_from(load, mem)
                    ==> resolve(self@, mem) == walk_from(self@, i as int, acc, mem),
            decreases n - i,
        {
            let next = acc.wrapping_add(self.offsets[i]);
            assert(next == wrapped_sum(acc, self@[i as int]));
            if next == 0 {
                assert forall|mem: spec_fn(usize) -> usize| #[trigger] loads_from(load, mem)
                    implies resolve(self@, mem) == Err::<usize, ChainError>(ChainError::NullDereference) by {
                    assert(walk_from(self@, i as int, acc, mem) == Err::<usize, ChainError>(ChainError::NullDereference));
                }
                return Err(ChainError::NullDereference);
            }
            let word = load(next);
            assert forall|mem: spec_fn(usize) -> usize| #[trigger] loads_from(load, mem)
                implies resolve(self@, mem) == walk_from(self@, i + 1, word, mem) by {
                assert(word == mem(next));
                assert(walk_from(self@, i as int, acc, mem) == walk_from(self@, i + 1, mem(next), mem));
            }
            acc = word;
            i = i + 1;
        }
        let last = acc.wrapping_add(self.offsets[n - 1]);
        assert(last == wrapped_sum(acc, self@[n - 1]));
        assert forall|mem: spec_fn(usize) -> usize| #[trigger] loads_from(load, mem)
            implies resolve(self@, mem) == Ok::<usize, ChainError>(last) by {
            assert(walk_from(self@, i as int, acc, mem) == Ok::<usize, ChainError>(last));
        }
        Ok(last)
    }
}


} // verus!
