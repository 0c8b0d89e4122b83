use crate::error::EngineError;
use crate::web_file::cachereader::copy_range;
use vstd::prelude::*;

verus! {

/// A position in the file that the host delivers, for reads that go to the
/// host one after the other.
pub struct WebFileReader {
    pub offset: u64,
    pub length: u64,
}

/// One call of the host's chunk read: `length` bytes from `offset`.
#[derive(Clone, Copy, Debug, PartialEq, Eq, Structural)]
pub struct ChunkRequest {
    pub offset: u64,
    pub length: usize,
}

impl ChunkRequest {
    /// The offset and the length as the host takes them, `OutOfRange` where
    /// one of them is beyond the numbers that the host takes.
    pub fn host_arguments(&self) -> (arguments: Result<(i32, i32), EngineError>)
        ensures
            match arguments {
                Ok((offset, length)) => offset == self.offset && length == self.length,
                Err(e) => e == EngineError::OutOfRange && (self.offset > i32::MAX || self.length
                    > i32::MAX),
            },
    {
        if self.offset > i32::MAX as u64 || self.length > i32::MAX as usize {
            Err(EngineError::OutOfRange)
        } else {
            Ok((self.offset as i32, self.length as i32))
        }
    }
}

impl WebFileReader {
    /// A reader at `offset` of a file of `file_size` bytes.
    pub fn new_from_file(offset: u64, file_size: i32) -> (reader: Self)
        requires
            file_size >= 0,
        ensures
            reader.offset == offset,
            reader.length == file_size,
    {
        Self { offset, length: file_size as u64 }
    }

    /// A reader at `offset` of a file whose size is not declared.
    pub fn init_reader(offset: u64) -> (reader: Self)
        ensures
            reader.offset == offset,
            reader.length == 0,
    {
        Self { offset, length: 0 }
    }

    /// The call of the host that a read of `read_size` bytes makes.
    pub fn chunk_request(&self, read_size: usize) -> (request: ChunkRequest)
        ensures
            request == (ChunkRequest { offset: self.offset, length: read_size }),
    {
        ChunkRequest { offset: self.offset, length: read_size }
    }

    /// Which error, if any, the delivery of a chunk meets: `IoError` where
    /// the host delivered fewer bytes than the read asked for, `OutOfRange`
    /// where the position cannot move that far.
    pub open spec fn chunk_fault(offset: u64, read_size: usize, chunk: Seq<u8>) -> Option<
        EngineError,
    > {
        if chunk.len() < read_size {
            Some(EngineError::IoError)
        } else if offset + read_size > u64::MAX {
            Some(EngineError::OutOfRange)
        } else {
            None
        }
    }

    /// Takes the chunk that the host delivered for a read of `read_size`
    /// bytes: returns its first `read_size` bytes and moves the position
    /// behind them. On an error the position stays.
    pub fn accept_chunk(&mut self, read_size: usize, chunk: &Vec<u8>) -> (bytes: Result<
        Vec<u8>,
        EngineError,
    >)
        ensures
            final(self).length == old(self).length,
            match bytes {
                Ok(b) => {
                    &&& Self::chunk_fault(old(self).offset, read_size, chunk@) is None
                    &&& b@ == chunk@.subrange(0, read_size as int)
                    &&& final(self).offset == old(self).offset + read_size
                },
                Err(e) => {
                    &&& Self::chunk_fault(old(self).offset, read_size, chunk@) == Some(e)
                    &&& final(self).offset == old(self).offset
                },
            },
    {
        if chunk.len() < read_size {
            return Err(EngineError::IoError);
        }
        if read_size as u64 > u64::MAX - self.offset {
            return Err(EngineError::OutOfRange);
        }
        let bytes = copy_range(chunk, 0, read_size);
        self.offset = self.offset + read_size as u64;
        Ok(bytes)
    }
}

} // verus!
