//! Coroutines: a stack, an entry function, and the next coroutine in a ring.
use vstd::prelude::*;
use crate::thread::STACK_WORDS;
use crate::ids::IdCounter;

verus! {

/// Number of 64-bit words of the context saved on the stack below the return
/// address: fifteen general purpose registers and the flags register.
pub const CONTEXT_WORDS: usize = 16;

/// Value of the flags register a coroutine starts with: interrupts disabled.
pub const INITIAL_RFLAGS: u64 = 2;

/// Represents a coroutine: its id, its stack, the saved stack pointer, the
/// address of its entry function and the address of the next coroutine.
/// Coroutines are chained via `set_next()` and form a circular list.
pub struct Coroutine {
    id: usize,
    stack: Vec<u64>,
    stack_ptr: usize,
    entry: usize,
    next: usize,
}

/// The stack words of a freshly prepared coroutine, from the top of the stack
/// downwards: the return address `kickoff`, fourteen cleared registers with the
/// coroutine itself as first parameter (`rdi`), a cleared `rbp`, and the flags.
pub open spec fn prepared_stack(s: Seq<u64>, kickoff: u64, coroutine: u64) -> bool {
    let n = s.len() as int;
    &&& s[n - 1] == kickoff
    &&& forall|k: int| 2 <= k <= 14 ==> #[trigger] s[n - k] == 0
    &&& s[n - 15] == coroutine
    &&& s[n - 16] == 0
    &&& s[n - 17] == INITIAL_RFLAGS
}

impl Coroutine {
    /// The id of the coroutine.
    pub closed spec fn cid(&self) -> usize {
        self.id
    }

    /// The stack words.
    pub closed spec fn stack_words(&self) -> Seq<u64> {
        self.stack@
    }

    /// The saved stack pointer.
    pub closed spec fn saved_stack_ptr(&self) -> usize {
        self.stack_ptr
    }

    /// The address of the next coroutine.
    pub closed spec fn next_addr(&self) -> usize {
        self.next
    }

    /// The address of the entry function.
    pub closed spec fn entry_addr(&self) -> usize {
        self.entry
    }

    /// Create a new coroutine with the next id of `ids` and the given entry
    /// function address,
    /// with a zeroed stack, no saved stack pointer yet and no next coroutine.
    /// Its stack is prepared by `prepare_stack` once the address of the
    /// coroutine and of its stack are known.
    pub fn new(ids: &mut IdCounter, entry: usize) -> (r: Coroutine)
        ensures
            r.cid() == old(ids).upcoming(),
            final(ids).upcoming() == if r.cid() == usize::MAX { 0 } else { (r.cid() + 1) as usize },
            r.entry_addr() == entry,
            r.saved_stack_ptr() == 0,
            r.stack_words().len() == STACK_WORDS,
            forall|i: int| 0 <= i < STACK_WORDS ==> #[trigger] r.stack_words()[i] == 0,
            r.next_addr() == 0,
    {
        let id = ids.take();
        let mut stack: Vec<u64> = Vec::with_capacity(STACK_WORDS);
        let mut i: usize = 0;
        while i < STACK_WORDS
            invariant
                i <= STACK_WORDS,
                stack@.len() == i,
                forall|j: int| 0 <= j < i ==> stack@[j] == 0,
            decreases STACK_WORDS - i,
        {
            stack.push(0);
            i = i + 1;
        }
        Coroutine { id, stack, stack_ptr: 0, entry, next: 0 }
    }

    /// Prepare the stack of a newly created coroutine in a way that it can be used
    /// to return to the 'kickoff' function (at `kickoff`) with the coroutine itself
    /// (at `coroutine`) as parameter. The top seventeen words of the stack are
    /// written, the words below them are left as they are. `last_slot` is the
    /// address of the last stack word; the saved stack pointer ends up sixteen
    /// words below it, at the flags word.
    pub fn prepare_stack(&mut self, last_slot: usize, kickoff: u64, coroutine: u64)
        requires
            old(self).stack_words().len() >= 17,
            last_slot >= 8 * CONTEXT_WORDS,
        ensures
            final(self).cid() == old(self).cid(),
            final(self).entry_addr() == old(self).entry_addr(),
            final(self).next_addr() == old(self).next_addr(),
            final(self).stack_words().len() == old(self).stack_words().len(),
            prepared_stack(final(self).stack_words(), kickoff, coroutine),
            forall|i: int| 0 <= i < old(self).stack_words().len() - 17 ==> #[trigger] final(self).stack_words()[i] == old(self).stack_words()[i],
            final(self).saved_stack_ptr() == last_slot - 8 * CONTEXT_WORDS,
    {
        let length = self.stack.len();
        self.stack.set(length - 1, kickoff);
        let mut k: usize = 2;
        while k <= 14
            invariant
                2 <= k <= 15,
                length >= 17,
                length == old(self).stack@.len(),
                self.stack@.len() == length,
                self.stack@[length - 1] == kickoff,
                forall|j: int| 2 <= j < k ==> #[trigger] self.stack@[length - j] == 0,
                forall|i: int| 0 <= i < length - 17 ==> #[trigger] self.stack@[i] == old(self).stack@[i],
                self.id == old(self).id,
                self.entry == old(self).entry,
                self.next == old(self).next,
            decreases 15 - k,
        {
            self.stack.set(length - k, 0);
            k = k + 1;
        }
        self.stack.set(length - 15, coroutine);
        self.stack.set(length - 16, 0);
        self.stack.set(length - 17, INITIAL_RFLAGS);
        self.stack_ptr = last_slot - 8 * CONTEXT_WORDS;
    }

    /// The stack words, for finding the address of the last one.
    pub fn stack(&self) -> (r: &Vec<u64>)
        ensures
            r@ == self.stack_words(),
    {
        &self.stack
    }

    /// Get the id of the coroutine.
    pub fn id(&self) -> (r: usize)
        ensures
            r == self.cid(),
    {
        self.id
    }

    /// Get the address of the entry function.
    pub fn entry(&self) -> (r: usize)
        ensures
            r == self.entry_addr(),
    {
        self.entry
    }

    /// Get the saved stack pointer.
    pub fn stack_ptr(&self) -> (r: usize)
        ensures
            r == self.saved_stack_ptr(),
    {
        self.stack_ptr
    }

    /// Set the next coroutine, by its address.
    pub fn set_next(&mut self, next: usize)
        ensures
            final(self).next_addr() == next,
            final(self).cid() == old(self).cid(),
            final(self).stack_words() == old(self).stack_words(),
            final(self).saved_stack_ptr() == old(self).saved_stack_ptr(),
            final(self).entry_addr() == old(self).entry_addr(),
    {
        self.next = next;
    }

    /// Get the address of the next coroutine.
    pub fn next(&self) -> (r: usize)
        ensures
            r == self.next_addr(),
    {
        self.next
    }
}

} // verus!
