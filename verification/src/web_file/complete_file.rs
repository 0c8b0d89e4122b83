use crate::error::EngineError;
use crate::web_file::cachereader::copy_range;
use vstd::prelude::*;

verus! {

/// How many bytes one call of the host delivers at most while a range is loaded.
pub const CHUNK_SIZE: u64 = 8 * 1024;

/// The bytes of a range of the file, read one after the other from a position.
pub struct CompleteFile {
    pub offset: u64,
    pub array: Vec<u8>,
}

impl CompleteFile {
    /// No bytes, read from the start.
    pub fn new() -> (file: Self)
        ensures
            file.offset == 0,
            file.array@ == Seq::<u8>::empty(),
    {
        Self { offset: 0, array: Vec::new() }
    }

    /// The size of the next chunk to ask of the host while `length` bytes
    /// are loaded and `loaded` of them are there: a full chunk, or what is
    /// left where that is less; `None` when nothing is left.
    pub open spec fn next_chunk_len(loaded: u64, length: u64) -> Option<usize> {
        if loaded >= length {
            None
        } else if length - loaded >= CHUNK_SIZE {
            Some(CHUNK_SIZE as usize)
        } else {
            Some((length - loaded) as usize)
        }
    }

    /// The size of the next chunk to ask of the host, if any.
    pub fn next_chunk(loaded: u64, length: u64) -> (size: Option<usize>)
        ensures
            size == Self::next_chunk_len(loaded, length),
    {
        if loaded >= length {
            None
        } else if length - loaded >= CHUNK_SIZE {
            Some(CHUNK_SIZE as usize)
        } else {
            Some((length - loaded) as usize)
        }
    }

    /// Appends a chunk that the host delivered and rewinds to the start.
    pub fn read_into_buffer(self, chunk: &Vec<u8>) -> (file: Self)
        ensures
            file.offset == 0,
            file.array@ == self.array@ + chunk@,
    {
        let mut array = self.array;
        let ghost before = array@;
        let mut i: usize = 0;
        while i < chunk.len()
            invariant
                i <= chunk@.len(),
                array@ == before + chunk@.take(i as int),
            decreases chunk@.len() - i,
        {
            array.push(chunk[i]);
            i += 1;
            assert(array@ =~= before + chunk@.take(i as int));
        }
        assert(chunk@.take(i as int) =~= chunk@);
        Self { offset: 0, array }
    }

    /// Whether `read_size` bytes are left from the position on.
    pub open spec fn has(&self, read_size: int) -> bool {
        self.offset + read_size <= self.array@.len()
    }

    /// Whether `read_size` bytes are left from the position on.
    fn has_bytes(&self, read_size: usize) -> (enough: bool)
        ensures
            enough == self.has(read_size as int),
            enough ==> self.offset + read_size <= usize::MAX,
    {
        let n = self.array.len();
        self.offset <= n as u64 && read_size <= n - self.offset as usize
    }

    /// Fills `buf` with the next bytes and moves the position behind them;
    /// returns how many bytes were read. Where fewer bytes are left than
    /// `buf` takes, nothing is read and nothing changes.
    pub fn read(&mut self, buf: &mut Vec<u8>) -> (read: usize)
        ensures
            final(self).array@ == old(self).array@,
            old(self).has(old(buf)@.len() as int) ==> {
                &&& read == old(buf)@.len()
                &&& final(buf)@ == old(self).array@.subrange(
                    old(self).offset as int,
                    old(self).offset + old(buf)@.len(),
                )
                &&& final(self).offset == old(self).offset + old(buf)@.len()
            },
            !old(self).has(old(buf)@.len() as int) ==> {
                &&& read == 0
                &&& final(buf)@ == old(buf)@
                &&& final(self).offset == old(self).offset
            },
    {
        let read_size = buf.len();
        if !self.has_bytes(read_size) {
            return 0;
        }
        *buf = copy_range(&self.array, self.offset as usize, read_size);
        self.offset = self.offset + read_size as u64;
        read_size
    }

    /// Fills `buf` with the next bytes and moves the position behind them.
    /// Fails with `OutOfRange`, changing nothing, where fewer bytes are left
    /// than `buf` takes.
    pub fn read_exact(&mut self, buf: &mut Vec<u8>) -> (done: Result<(), EngineError>)
        ensures
            final(self).array@ == old(self).array@,
            done is Ok <==> old(self).has(old(buf)@.len() as int),
            done is Ok ==> {
                &&& final(buf)@ == old(self).array@.subrange(
                    old(self).offset as int,
                    old(self).offset + old(buf)@.len(),
                )
                &&& final(self).offset == old(self).offset + old(buf)@.len()
            },
            done is Err ==> {
                &&& done->Err_0 == EngineError::OutOfRange
                &&& final(buf)@ == old(buf)@
                &&& final(self).offset == old(self).offset
            },
    {
        let read_size = buf.len();
        if !self.has_bytes(read_size) {
            return Err(EngineError::OutOfRange);
        }
        *buf = copy_range(&self.array, self.offset as usize, read_size);
        self.offset = self.offset + read_size as u64;
        Ok(())
    }

    /// Reads as `read` does: as many bytes as `buf` holds.
    pub fn read_to_end(&mut self, buf: &mut Vec<u8>) -> (read: usize)
        ensures
            final(self).array@ == old(self).array@,
            old(self).has(old(buf)@.len() as int) ==> {
                &&& read == old(buf)@.len()
                &&& final(buf)@ == old(self).array@.subrange(
                    old(self).offset as int,
                    old(self).offset + old(buf)@.len(),
                )
                &&& final(self).offset == old(self).offset + old(buf)@.len()
            },
            !old(self).has(old(buf)@.len() as int) ==> {
                &&& read == 0
                &&& final(buf)@ == old(buf)@
                &&& final(self).offset == old(self).offset
            },
    {
        self.read(buf)
    }
}

} // verus!
