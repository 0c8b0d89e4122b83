use crate::error::EngineError;
use crate::web_file::cachereader::{CacheReader, CacheView, ReadStep, StepView};
use vstd::prelude::*;

verus! {

/// The file as a decoder of columnar data reads it: a length and reads of
/// byte ranges, which the byte-range cache answers.
pub struct WebFileChunkReader {
    length: u64,
}

impl WebFileChunkReader {
    /// The declared size of the file.
    pub closed spec fn total(&self) -> u64 {
        self.length
    }

    /// A reader of a file of `file_size` bytes.
    pub fn new(file_size: i32) -> (reader: Self)
        requires
            file_size >= 0,
        ensures
            reader.total() == file_size,
    {
        Self { length: file_size as u64 }
    }

    /// The size of the file.
    pub fn len(&self) -> (length: u64)
        ensures
            length == self.total(),
    {
        self.length
    }

    /// How many of `wanted` bytes a sequential read at `position` can take:
    /// all of them, or what the file has left where that is less.
    pub fn readable(&self, position: u64, wanted: usize) -> (size: usize)
        ensures
            size == if position >= self.total() {
                0
            } else if wanted <= self.total() - position {
                wanted as int
            } else {
                self.total() - position
            },
    {
        if position >= self.length {
            0
        } else if wanted as u64 <= self.length - position {
            wanted
        } else {
            (self.length - position) as usize
        }
    }

    /// What a read of `length` bytes from `start` comes to: `OutOfRange`
    /// where the range reaches beyond the file, else what the cache does
    /// for the range.
    pub open spec fn read_step(&self, cache: CacheView, start: int, length: int) -> StepView {
        if start + length > self.total() {
            StepView::Failed(EngineError::OutOfRange)
        } else {
            cache.step(start, length)
        }
    }

    /// Answers a read of `length` bytes from `start` out of `cache`: the
    /// bytes, or the fetch that has to be made first, or `OutOfRange`.
    pub fn get_read(&self, cache: &CacheReader, start: u64, length: usize) -> (step: ReadStep)
        requires
            cache.wf(),
        ensures
            step@ == self.read_step(cache@, start as int, length as int),
    {
        if length as u64 > self.length || start > self.length - length as u64 {
            return ReadStep::Failed(EngineError::OutOfRange);
        }
        cache.request(start, length)
    }
}

} // verus!
