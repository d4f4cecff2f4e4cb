//! A buffer that caches one disk block.
use vstd::prelude::*;

verus! {

/// Buffer is locked by some process.
pub const B_BUSY: u32 = 0x1;
/// Buffer has been read from disk.
pub const B_VALID: u32 = 0x2;
/// Buffer needs to be written to disk.
pub const B_DIRTY: u32 = 0x4;
/// Bytes held by a buffer.
pub const BUF_SIZE: usize = 512;

/// One cached disk block.  The list links of the cache are kept by the
/// cache itself (see `bio`); `qnext` is the next buffer in the disk queue.
pub struct Buf {
    pub flags: u32,
    pub dev: u32,
    pub blockno: u32,
    pub qnext: Option<usize>,
    pub data: Vec<u8>,
}

impl Buf {
    /// An empty buffer: no flags, device and block 0, zeroed data.
    pub fn new() -> (r: Self)
        ensures
            r.flags == 0,
            r.dev == 0,
            r.blockno == 0,
            r.qnext is None,
            r.data@ == Seq::new(BUF_SIZE as nat, |i: int| 0u8),
    {
        let data: Vec<u8> = vec![0u8; BUF_SIZE];
        proof {
            assert(data@ =~= Seq::new(BUF_SIZE as nat, |i: int| 0u8));
        }
        Buf { flags: 0, dev: 0, blockno: 0, qnext: None, data }
    }

    /// Sets the bits of `flag`.
    pub fn set_flag(&mut self, flag: u32)
        ensures
            final(self).flags == old(self).flags | flag,
            final(self).dev == old(self).dev,
            final(self).blockno == old(self).blockno,
            final(self).qnext == old(self).qnext,
            final(self).data@ == old(self).data@,
    {
        self.flags = self.flags | flag;
    }

    /// Clears the bits of `flag`.
    pub fn clear_flag(&mut self, flag: u32)
        ensures
            final(self).flags == old(self).flags & !flag,
            final(self).dev == old(self).dev,
            final(self).blockno == old(self).blockno,
            final(self).qnext == old(self).qnext,
            final(self).data@ == old(self).data@,
    {
        self.flags = self.flags & !flag;
    }

    /// Whether any bit of `flag` is set.
    pub fn is_flag_set(&self, flag: u32) -> (r: bool)
        ensures
            r == (self.flags & flag != 0),
    {
        self.flags & flag != 0
    }
}

/// After setting a flag it reads as set; after clearing it, as clear; and
/// neither touches the other flags.
pub proof fn lemma_flag_set_clear(flags: u32, flag: u32, other: u32)
    requires
        flag & other == 0,
    ensures
        (flags | flag) & flag == flag,
        (flags & !flag) & flag == 0,
        (flags | flag) & other == flags & other,
        (flags & !flag) & other == flags & other,
{
    assert((flag & other == 0 ==> (flags | flag) & other == flags & other)
        && (flag & other == 0 ==> (flags & !flag) & other == flags & other)
        && ((flags | flag) & flag == flag)
        && ((flags & !flag) & flag == 0)) by (bit_vector);
}

} // verus!
