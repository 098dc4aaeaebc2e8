//! A growable byte buffer with a cursor, used to collect the bytes read from
//! a socket until a whole frame can be parsed out of them.

use vstd::prelude::*;

verus! {

/// Number of bytes the buffer holds when it is created.
pub const INITIAL_CAPACITY: usize = 4096;

/// Backing storage plus a cursor: `buffer[..cursor]` holds the bytes that
/// were received and not yet consumed; `buffer[cursor..]` is free space.
pub struct MyBuffer {
    buffer: Vec<u8>,
    cursor: usize,
}

impl View for MyBuffer {
    /// The whole backing storage and the cursor.
    type V = (Seq<u8>, nat);

    closed spec fn view(&self) -> (Seq<u8>, nat) {
        (self.buffer@, self.cursor as nat)
    }
}

impl MyBuffer {
    /// The backing storage, received bytes and free space together.
    pub open spec fn storage(&self) -> Seq<u8> {
        self@.0
    }

    /// Where received bytes end and free space begins.
    pub open spec fn position(&self) -> nat {
        self@.1
    }

    /// The bytes received and not yet consumed.
    pub open spec fn data(&self) -> Seq<u8> {
        self.storage().take(self.position() as int)
    }

    /// What every operation keeps: the cursor stays strictly inside the
    /// storage, and the storage never exceeds its initial size.
    pub open spec fn wf(&self) -> bool {
        self.position() < self.storage().len() <= INITIAL_CAPACITY
    }

    /// A zero-filled buffer of `INITIAL_CAPACITY` bytes with nothing received.
    pub fn new() -> (b: MyBuffer)
        ensures
            b.wf(),
            b.storage() == Seq::new(INITIAL_CAPACITY as nat, |i: int| 0u8),
            b.position() == 0,
    {
        let b = MyBuffer { buffer: vec![0; 4096], cursor: 0 };
        assert(b.storage() =~= Seq::new(INITIAL_CAPACITY as nat, |i: int| 0u8));
        b
    }

    /// The received bytes, `buffer[..cursor]`.
    pub fn get_bytes(&self) -> (bytes: &[u8])
        requires
            self.wf(),
        ensures
            bytes@ == self.data(),
    {
        self.buffer.as_slice().split_at(self.cursor).0
    }

    /// The free space after the cursor, for the next read to fill. The
    /// storage is doubled first when no free space is left (which `wf` rules
    /// out, so the storage is never grown).
    pub fn get_free_space(&mut self) -> (free: &mut [u8])
        requires
            old(self).wf(),
        ensures
            free@ == old(self).storage().skip(old(self).position() as int),
            final(self).position() == old(self).position(),
            final(self).storage() == old(self).data() + final(free)@,
            final(free)@.len() == free@.len() ==> final(self).wf(),
    {
        // Grow the buffer if it's full
        if self.buffer.len() == self.cursor {
            self.buffer.resize(self.cursor * 2, 0);
        }
        let cursor = self.cursor;
        self.buffer.as_mut_slice().split_at_mut(cursor).1
    }

    /// Marks `i` more bytes after the cursor as received. Refused, with
    /// nothing changed, unless `cursor + i` stays below the storage length.
    /// The sum `cursor + i` must not overflow.
    pub fn advance_cursor(&mut self, i: usize) -> (r: Result<(), &'static str>)
        requires
            old(self).wf(),
            old(self).position() + i <= usize::MAX,
        ensures
            final(self).wf(),
            final(self).storage() == old(self).storage(),
            old(self).position() + i >= old(self).storage().len() ==> {
                &&& r matches Err(msg) && msg@ == "i is too big."@
                &&& final(self).position() == old(self).position()
            },
            old(self).position() + i < old(self).storage().len() ==> {
                &&& r is Ok
                &&& final(self).position() == old(self).position() + i
            },
    {
        if i >= self.buffer.len() - self.cursor {
            return Err("i is too big.");
        }
        self.cursor += i;
        Ok(())
    }

    /// Whether no received byte is waiting.
    pub fn is_empty(&self) -> (empty: bool)
        ensures
            empty == (self.position() == 0),
    {
        self.cursor == 0
    }

    /// Drops the first `i` received bytes, and with them the first `i` bytes
    /// of the storage. Refused, with nothing changed, when `i` exceeds the
    /// number of received bytes.
    pub fn advance(&mut self, i: usize) -> (r: Result<(), &'static str>)
        requires
            old(self).wf(),
        ensures
            final(self).wf(),
            i > old(self).position() ==> {
                &&& r matches Err(msg) && msg@ == "i > cursor"@
                &&& final(self)@ == old(self)@
            },
            i <= old(self).position() ==> {
                &&& r is Ok
                &&& final(self).storage() == old(self).storage().skip(i as int)
                &&& final(self).position() == old(self).position() - i
            },
    {
        if i > self.cursor {
            return Err("i > cursor");
        }
        self.buffer = self.buffer.split_off(i);
        self.cursor -= i;
        Ok(())
    }
}

/// A read that fills the free space handed out by `get_free_space` with
/// `written` and reports `n` bytes, followed by `advance_cursor(n)`, appends
/// the first `n` written bytes to the received data, which otherwise stays
/// as it was; the storage keeps its length.
pub proof fn lemma_read_appends(
    before: MyBuffer,
    filled: MyBuffer,
    written: Seq<u8>,
    committed: MyBuffer,
    n: nat,
)
    requires
        before.wf(),
        written.len() == before.storage().len() - before.position(),
        filled.position() == before.position(),
        filled.storage() == before.data() + written,
        committed.storage() == filled.storage(),
        committed.position() == filled.position() + n,
        n <= written.len(),
    ensures
        committed.data() == before.data() + written.take(n as int),
        committed.storage().len() == before.storage().len(),
{
    assert(committed.data() =~= before.data() + written.take(n as int));
}

/// `advance(i)` drops exactly the first `i` received bytes and keeps the
/// rest in order.
pub proof fn lemma_advance_drops_prefix(before: MyBuffer, after: MyBuffer, i: nat)
    requires
        before.wf(),
        i <= before.position(),
        after.storage() == before.storage().skip(i as int),
        after.position() == before.position() - i,
    ensures
        after.data() == before.data().skip(i as int),
{
    assert(after.data() =~= before.data().skip(i as int));
}

} // verus!
