use crate::error::EngineError;
use crate::utils::sequences::{first_where, lemma_first_where, lemma_first_where_is};
use vstd::prelude::*;

verus! {

/// How many bytes a fetch asks of the host at least: small sequential reads
/// that follow a miss are then served without another round trip.
pub const PREFETCH_SIZE: usize = 170_000;

/// The bytes of one fetch and where in the file they start.
pub struct Entry {
    pub file_offset: u64,
    pub buffer: Vec<u8>,
}

/// What an `Entry` stands for.
pub struct EntryView {
    pub start: int,
    pub bytes: Seq<u8>,
}

impl View for Entry {
    type V = EntryView;

    open spec fn view(&self) -> EntryView {
        EntryView { start: self.file_offset as int, bytes: self.buffer@ }
    }
}

impl EntryView {
    /// Whether the entry holds every byte of the range.
    pub open spec fn covers(self, offset: int, length: int) -> bool {
        self.start <= offset && offset + length <= self.start + self.bytes.len()
    }

    /// The bytes of a range that the entry covers.
    pub open spec fn slice(self, offset: int, length: int) -> Seq<u8> {
        self.bytes.subrange(offset - self.start, offset - self.start + length)
    }
}

/// What the cache does for a request.
pub enum ReadStep {
    /// The bytes of the range, served from an entry without a call of the host.
    Served(Vec<u8>),
    /// A miss: the host is to be asked once for `length` bytes from `offset`,
    /// and what it delivers is to be handed to `supply`.
    Fetch { offset: u64, length: usize },
    /// The request cannot be met.
    Failed(EngineError),
}

/// What a `ReadStep` stands for.
pub enum StepView {
    Served(Seq<u8>),
    Fetch { offset: int, length: int },
    Failed(EngineError),
}

impl View for ReadStep {
    type V = StepView;

    open spec fn view(&self) -> StepView {
        match self {
            ReadStep::Served(bytes) => StepView::Served(bytes@),
            ReadStep::Fetch { offset, length } => StepView::Fetch {
                offset: *offset as int,
                length: *length as int,
            },
            ReadStep::Failed(e) => StepView::Failed(*e),
        }
    }
}

/// What a `CacheReader` stands for.
pub struct CacheView {
    /// Where the next sequential read starts.
    pub position: int,
    /// The size of the read that the reader was last asked for.
    pub read_size: int,
    /// The declared size of the file.
    pub file_length: int,
    /// The fetches so far, oldest first.
    pub entries: Seq<EntryView>,
}

impl CacheView {
    /// Every entry lies within the file.
    pub open spec fn wf(self) -> bool {
        forall|i: int|
            0 <= i < self.entries.len() ==> 0 <= (#[trigger] self.entries[i]).start
                && self.entries[i].start + self.entries[i].bytes.len() <= self.file_length
    }

    /// The test for an entry that covers the range.
    pub open spec fn covering(self, offset: int, length: int) -> spec_fn(int) -> bool {
        |i: int| self.entries[i].covers(offset, length)
    }

    /// Whether some entry covers the range.
    pub open spec fn covered(self, offset: int, length: int) -> bool {
        exists|i: int| 0 <= i < self.entries.len() && self.entries[i].covers(offset, length)
    }

    /// How many bytes a miss asks of the host.
    pub open spec fn fetch_len(length: int) -> int {
        if length >= PREFETCH_SIZE {
            length
        } else {
            PREFETCH_SIZE as int
        }
    }

    /// How many bytes the host owes for a miss: what was asked, or what the
    /// file has left from `offset` where that is less.
    pub open spec fn expected_len(self, offset: int, length: int) -> int {
        if Self::fetch_len(length) <= self.file_length - offset {
            Self::fetch_len(length)
        } else {
            self.file_length - offset
        }
    }

    /// What the cache does for a request: it fails with `OutOfRange` where
    /// the range reaches beyond the file, serves the range from the oldest
    /// entry that covers it, and on a miss asks for one fetch.
    pub open spec fn step(self, offset: int, length: int) -> StepView {
        if offset + length > self.file_length {
            StepView::Failed(EngineError::OutOfRange)
        } else {
            let at = first_where(self.entries.len(), self.covering(offset, length));
            if at < self.entries.len() {
                StepView::Served(self.entries[at].slice(offset, length))
            } else {
                StepView::Fetch { offset, length: Self::fetch_len(length) }
            }
        }
    }

    /// The cache seen from another position: a sequential read of
    /// `read_size` bytes is to start at `position`. The file and the
    /// entries are the same.
    pub open spec fn repositioned(self, position: int, read_size: int) -> CacheView {
        CacheView { position, read_size, ..self }
    }

    /// The cache after the host delivered `chunk` for a fetch from `offset`.
    pub open spec fn supplied(self, offset: int, chunk: Seq<u8>) -> CacheView {
        CacheView { entries: self.entries.push(EntryView { start: offset, bytes: chunk }), ..self }
    }

    /// Which error, if any, the delivery of a fetch meets: `IoError` where
    /// the host failed; `OutOfRange` where the range reaches beyond the
    /// file; `IoError` where the host delivered another number of bytes
    /// than it owes.
    pub open spec fn delivery_fault(
        self,
        offset: int,
        length: int,
        delivered: Option<Seq<u8>>,
    ) -> Option<EngineError> {
        match delivered {
            None => Some(EngineError::IoError),
            Some(chunk) => CacheReader::supply_fault(self, offset, length, chunk),
        }
    }

    /// The cache after a fetch for the range of `length` bytes from
    /// `offset`: what the host delivered is a new entry, unless the
    /// delivery meets an error, which leaves the cache as it was.
    pub open spec fn fetched(
        self,
        offset: int,
        length: int,
        delivered: Option<Seq<u8>>,
    ) -> CacheView {
        if self.delivery_fault(offset, length, delivered) is Some {
            self
        } else {
            self.supplied(offset, delivered->Some_0)
        }
    }

    /// What a fetch for the range of `length` bytes from `offset` gives:
    /// the bytes of the range out of what the host delivered, or the error
    /// that the delivery meets.
    pub open spec fn fetched_bytes(
        self,
        offset: int,
        length: int,
        delivered: Option<Seq<u8>>,
    ) -> Result<Seq<u8>, EngineError> {
        match self.delivery_fault(offset, length, delivered) {
            Some(e) => Err(e),
            None => Ok(delivered->Some_0.subrange(0, length)),
        }
    }

    /// Whether every entry holds the bytes that `file` has at its place.
    pub open spec fn agrees(self, file: Seq<u8>) -> bool {
        &&& file.len() == self.file_length
        &&& forall|i: int|
            0 <= i < self.entries.len() ==> 0 <= (#[trigger] self.entries[i]).start
                && self.entries[i].start + self.entries[i].bytes.len() <= file.len()
                && self.entries[i].bytes == file.subrange(
                self.entries[i].start,
                self.entries[i].start + self.entries[i].bytes.len(),
            )
    }
}

/// What a list of entries stands for.
pub open spec fn entries_view(entries: Seq<Entry>) -> Seq<EntryView> {
    Seq::new(entries.len(), |i: int| entries[i]@)
}

/// A cache of byte ranges of a file that the host delivers chunk by chunk,
/// with a position for sequential reads.
pub struct CacheReader {
    current_offset: u64,
    read_size: usize,
    file_length: u64,
    buffer: Vec<Entry>,
}

impl View for CacheReader {
    type V = CacheView;

    closed spec fn view(&self) -> CacheView {
        CacheView {
            position: self.current_offset as int,
            read_size: self.read_size as int,
            file_length: self.file_length as int,
            entries: entries_view(self.buffer@),
        }
    }
}

/// The bytes of `source` from `from` on, `length` of them.
pub fn copy_range(source: &Vec<u8>, from: usize, length: usize) -> (out: Vec<u8>)
    requires
        from + length <= source@.len(),
    ensures
        out@ == source@.subrange(from as int, from + length),
{
    let mut out: Vec<u8> = Vec::new();
    let mut i: usize = 0;
    let n = source.len();
    while i < length
        invariant
            i <= length,
            n == source@.len(),
            from + length <= n,
            out@ == source@.subrange(from as int, from + i),
        decreases length - i,
    {
        out.push(source[from + i]);
        i += 1;
        assert(out@ =~= source@.subrange(from as int, from + i));
    }
    out
}

impl CacheReader {
    /// Whether every entry lies within the file.
    pub open spec fn wf(&self) -> bool {
        self@.wf()
    }

    /// An empty cache for a file of `file_size` bytes, positioned at `offset`.
    pub fn init_reader(offset: u64, file_size: i32) -> (reader: Self)
        requires
            file_size >= 0,
        ensures
            reader@ == (CacheView {
                position: offset as int,
                read_size: 0,
                file_length: file_size as int,
                entries: Seq::empty(),
            }),
            reader.wf(),
    {
        let reader = Self {
            current_offset: offset,
            read_size: 0,
            file_length: file_size as u64,
            buffer: Vec::new(),
        };
        assert(entries_view(reader.buffer@) =~= Seq::empty());
        reader
    }

    /// Turns the cache to another position: the next sequential read, of
    /// `readsize` bytes, starts at `offset`. The reader that this gives is
    /// the cache itself, so that what one reader fetched serves every
    /// reader after it.
    pub fn request_reader(&mut self, offset: u64, readsize: usize)
        ensures
            final(self)@ == old(self)@.repositioned(offset as int, readsize as int),
    {
        self.current_offset = offset;
        self.read_size = readsize;
    }

    /// Where the next sequential read starts.
    pub fn position(&self) -> (offset: u64)
        ensures
            offset == self@.position,
    {
        self.current_offset
    }

    /// The declared size of the file.
    pub fn file_length(&self) -> (length: u64)
        ensures
            length == self@.file_length,
    {
        self.file_length
    }

    /// How many fetches the cache holds.
    pub fn entry_count(&self) -> (n: usize)
        ensures
            n == self@.entries.len(),
    {
        self.buffer.len()
    }

    /// Whether the range lies within the file.
    fn in_file(&self, offset: u64, length: usize) -> (inside: bool)
        ensures
            inside == (offset + length <= self@.file_length),
    {
        length as u64 <= self.file_length && offset <= self.file_length - length as u64
    }

    /// What the cache does for the range of `length` bytes from `offset`:
    /// serve it from an entry, ask for a fetch, or fail. The cache itself
    /// is not changed.
    pub fn request(&self, offset: u64, length: usize) -> (step: ReadStep)
        requires
            self.wf(),
        ensures
            step@ == self@.step(offset as int, length as int),
    {
        if !self.in_file(offset, length) {
            return ReadStep::Failed(EngineError::OutOfRange);
        }
        let ghost covering = self@.covering(offset as int, length as int);
        let mut i: usize = 0;
        while i < self.buffer.len()
            invariant
                i <= self.buffer@.len(),
                self.wf(),
                offset + length <= self@.file_length,
                covering == self@.covering(offset as int, length as int),
                forall|j: int| 0 <= j < i ==> !#[trigger] covering(j),
            decreases self.buffer@.len() - i,
        {
            let entry = &self.buffer[i];
            assert(self@.entries[i as int] == entry@);
            assert(entry@.start + entry@.bytes.len() <= self@.file_length);
            if entry.file_offset <= offset && offset + length as u64 <= entry.file_offset
                + entry.buffer.len() as u64 {
                proof {
                    assert(covering(i as int));
                    lemma_first_where_is(self@.entries.len(), covering, i as int);
                }
                let from = (offset - entry.file_offset) as usize;
                return ReadStep::Served(copy_range(&entry.buffer, from, length));
            }
            assert(!covering(i as int));
            i += 1;
        }
        proof {
            lemma_first_where_is(self@.entries.len(), covering, i as int);
        }
        let wanted = if length >= PREFETCH_SIZE {
            length
        } else {
            PREFETCH_SIZE
        };
        ReadStep::Fetch { offset, length: wanted }
    }

    /// What the cache does for a sequential read of `length` bytes. Where the
    /// bytes are served, the position moves behind them.
    pub fn read(&mut self, length: usize) -> (step: ReadStep)
        requires
            old(self).wf(),
        ensures
            step@ == old(self)@.step(old(self)@.position, length as int),
            final(self)@ == if step@ is Served {
                old(self)@.repositioned(old(self)@.position + length, old(self)@.read_size)
            } else {
                old(self)@
            },
            final(self).wf(),
    {
        let step = self.request(self.current_offset, length);
        if let ReadStep::Served(_) = &step {
            self.current_offset = self.current_offset + length as u64;
        }
        step
    }

    /// Which error, if any, the delivery of a fetch meets: `OutOfRange`
    /// where the range reaches beyond the file, `IoError` where the host
    /// delivered another number of bytes than it owes.
    pub open spec fn supply_fault(
        view: CacheView,
        offset: int,
        length: int,
        chunk: Seq<u8>,
    ) -> Option<EngineError> {
        if offset + length > view.file_length {
            Some(EngineError::OutOfRange)
        } else if chunk.len() != view.expected_len(offset, length) {
            Some(EngineError::IoError)
        } else {
            None
        }
    }

    /// Takes what the host delivered for the fetch that `request` asked for
    /// the range of `length` bytes from `offset`: the chunk becomes a new
    /// entry and the bytes of the range are returned. On an error the cache
    /// stays as it was.
    pub fn supply(&mut self, offset: u64, length: usize, chunk: Vec<u8>) -> (bytes: Result<
        Vec<u8>,
        EngineError,
    >)
        requires
            old(self).wf(),
        ensures
            final(self).wf(),
            match bytes {
                Ok(b) => {
                    &&& Self::supply_fault(old(self)@, offset as int, length as int, chunk@) is None
                    &&& b@ == chunk@.subrange(0, length as int)
                    &&& final(self)@ == old(self)@.supplied(offset as int, chunk@)
                    &&& final(self)@.covered(offset as int, chunk@.len() as int)
                },
                Err(e) => {
                    &&& Self::supply_fault(old(self)@, offset as int, length as int, chunk@)
                        == Some(e)
                    &&& final(self)@ == old(self)@
                },
            },
    {
        if !self.in_file(offset, length) {
            return Err(EngineError::OutOfRange);
        }
        let wanted = if length >= PREFETCH_SIZE {
            length
        } else {
            PREFETCH_SIZE
        };
        let left = self.file_length - offset;
        let owed: u64 = if wanted as u64 <= left {
            wanted as u64
        } else {
            left
        };
        if chunk.len() as u64 != owed {
            return Err(EngineError::IoError);
        }
        let bytes = copy_range(&chunk, 0, length);
        let ghost before = self@;
        self.buffer.push(Entry { file_offset: offset, buffer: chunk });
        proof {
            assert(self@.entries =~= before.entries.push(
                EntryView { start: offset as int, bytes: chunk@ },
            ));
            assert forall|i: int| 0 <= i < self@.entries.len() implies 0 <= (
            #[trigger] self@.entries[i]).start && self@.entries[i].start
                + self@.entries[i].bytes.len() <= self@.file_length by {
                if i < before.entries.len() {
                    assert(self@.entries[i] == before.entries[i]);
                }
            }
            assert(self@.entries[before.entries.len() as int].covers(
                offset as int,
                chunk@.len() as int,
            ));
        }
        Ok(bytes)
    }

    /// The bytes of the range of `length` bytes from `offset`: from an entry
    /// where one covers the range, without a call of `host`; else by one
    /// call of `host`, for the fetch that `request` asks for. What the host
    /// delivers becomes a new entry; where the host fails, or delivers
    /// another number of bytes than it owes, the cache stays as it was.
    pub fn request_through<F: FnOnce(u64, usize) -> Option<Vec<u8>>>(
        &mut self,
        offset: u64,
        length: usize,
        host: F,
    ) -> (bytes: Result<Vec<u8>, EngineError>)
        requires
            old(self).wf(),
            old(self)@.step(offset as int, length as int) matches StepView::Fetch {
                offset: from,
                length: wanted,
            } ==> call_requires(host, (from as u64, wanted as usize)),
        ensures
            final(self).wf(),
            match old(self)@.step(offset as int, length as int) {
                StepView::Served(served) => {
                    &&& bytes_view(bytes) == Ok::<Seq<u8>, EngineError>(served)
                    &&& final(self)@ == old(self)@
                },
                StepView::Failed(e) => {
                    &&& bytes_view(bytes) == Err::<Seq<u8>, EngineError>(e)
                    &&& final(self)@ == old(self)@
                },
                StepView::Fetch { offset: from, length: wanted } => exists|
                    delivered: Option<Vec<u8>>,
                |
                    {
                        &&& #[trigger] call_ensures(host, (from as u64, wanted as usize), delivered)
                        &&& bytes_view(bytes) == old(self)@.fetched_bytes(
                            offset as int,
                            length as int,
                            delivery_view(delivered),
                        )
                        &&& final(self)@ == old(self)@.fetched(
                            offset as int,
                            length as int,
                            delivery_view(delivered),
                        )
                    },
            },
    {
        match self.request(offset, length) {
            ReadStep::Served(bytes) => Ok(bytes),
            ReadStep::Failed(e) => Err(e),
            ReadStep::Fetch { offset: from, length: wanted } => {
                let delivered = host(from, wanted);
                let ghost seen = delivered;
                let bytes = match delivered {
                    Some(chunk) => self.supply(offset, length, chunk),
                    None => Err(EngineError::IoError),
                };
                assert(call_ensures(host, (from, wanted), seen));
                bytes
            },
        }
    }

    /// Takes what the host delivered for the fetch that `read` asked for a
    /// sequential read of `length` bytes, and moves the position behind the
    /// bytes returned.
    pub fn supply_read(&mut self, length: usize, chunk: Vec<u8>) -> (bytes: Result<
        Vec<u8>,
        EngineError,
    >)
        requires
            old(self).wf(),
        ensures
            final(self).wf(),
            match bytes {
                Ok(b) => {
                    &&& Self::supply_fault(
                        old(self)@,
                        old(self)@.position,
                        length as int,
                        chunk@,
                    ) is None
                    &&& b@ == chunk@.subrange(0, length as int)
                    &&& final(self)@ == old(self)@.supplied(
                        old(self)@.position,
                        chunk@,
                    ).repositioned(old(self)@.position + length, old(self)@.read_size)
                    &&& final(self)@.covered(old(self)@.position, chunk@.len() as int)
                },
                Err(e) => {
                    &&& Self::supply_fault(
                        old(self)@,
                        old(self)@.position,
                        length as int,
                        chunk@,
                    ) == Some(e)
                    &&& final(self)@ == old(self)@
                },
            },
    {
        let offset = self.current_offset;
        let bytes = self.supply(offset, length, chunk)?;
        let ghost supplied = self@;
        self.current_offset = self.current_offset + length as u64;
        proof {
            let at = choose|i: int|
                0 <= i < supplied.entries.len() && supplied.entries[i].covers(
                    offset as int,
                    chunk@.len() as int,
                );
            assert(self@.entries[at] == supplied.entries[at]);
        }
        Ok(bytes)
    }

    /// A sequential read of `length` bytes: from an entry where one covers
    /// them, without a call of `host`; else by one call of `host`, for the
    /// fetch that `read` asks for. Where bytes are returned, the position
    /// moves behind them; on an error the cache stays as it was.
    pub fn read_through<F: FnOnce(u64, usize) -> Option<Vec<u8>>>(
        &mut self,
        length: usize,
        host: F,
    ) -> (bytes: Result<Vec<u8>, EngineError>)
        requires
            old(self).wf(),
            old(self)@.step(old(self)@.position, length as int) matches StepView::Fetch {
                offset: from,
                length: wanted,
            } ==> call_requires(host, (from as u64, wanted as usize)),
        ensures
            final(self).wf(),
            match old(self)@.step(old(self)@.position, length as int) {
                StepView::Served(served) => {
                    &&& bytes_view(bytes) == Ok::<Seq<u8>, EngineError>(served)
                    &&& final(self)@ == old(self)@.repositioned(
                        old(self)@.position + length,
                        old(self)@.read_size,
                    )
                },
                StepView::Failed(e) => {
                    &&& bytes_view(bytes) == Err::<Seq<u8>, EngineError>(e)
                    &&& final(self)@ == old(self)@
                },
                StepView::Fetch { offset: from, length: wanted } => exists|
                    delivered: Option<Vec<u8>>,
                |
                    {
                        &&& #[trigger] call_ensures(host, (from as u64, wanted as usize), delivered)
                        &&& bytes_view(bytes) == old(self)@.fetched_bytes(
                            old(self)@.position,
                            length as int,
                            delivery_view(delivered),
                        )
                        &&& final(self)@ == if bytes is Ok {
                            old(self)@.fetched(
                                old(self)@.position,
                                length as int,
                                delivery_view(delivered),
                            ).repositioned(old(self)@.position + length, old(self)@.read_size)
                        } else {
                            old(self)@
                        }
                    },
            },
    {
        match self.read(length) {
            ReadStep::Served(bytes) => Ok(bytes),
            ReadStep::Failed(e) => Err(e),
            ReadStep::Fetch { offset: from, length: wanted } => {
                let delivered = host(from, wanted);
                let ghost seen = delivered;
                let bytes = match delivered {
                    Some(chunk) => self.supply_read(length, chunk),
                    None => Err(EngineError::IoError),
                };
                assert(call_ensures(host, (from, wanted), seen));
                bytes
            },
        }
    }
}

/// What the bytes of a result stand for.
pub open spec fn bytes_view(bytes: Result<Vec<u8>, EngineError>) -> Result<Seq<u8>, EngineError> {
    match bytes {
        Ok(b) => Ok(b@),
        Err(e) => Err(e),
    }
}

/// What a delivery of the host stands for; a host that failed delivered nothing.
pub open spec fn delivery_view(delivered: Option<Vec<u8>>) -> Option<Seq<u8>> {
    match delivered {
        Some(chunk) => Some(chunk@),
        None => None,
    }
}

/// Bytes that the cache serves are the bytes that one read of the same
/// range from the file itself gives.
pub proof fn lemma_served_is_direct_read(cache: CacheView, file: Seq<u8>, offset: int, length: int)
    requires
        cache.agrees(file),
        0 <= offset,
        0 <= length,
    ensures
        cache.step(offset, length) matches StepView::Served(bytes) ==> bytes == file.subrange(
            offset,
            offset + length,
        ),
{
    lemma_first_where(cache.entries.len(), cache.covering(offset, length));
    let at = first_where(cache.entries.len(), cache.covering(offset, length));
    if offset + length <= cache.file_length && at < cache.entries.len() {
        let entry = cache.entries[at];
        assert(cache.covering(offset, length)(at));
        assert(entry.slice(offset, length) =~= file.subrange(offset, offset + length));
    }
}

/// Where the host delivers for a fetch the bytes that the file has at that
/// place, the bytes returned for the range are those of one read of the
/// range from the file itself, and the cache goes on agreeing with the file.
pub proof fn lemma_supplied_is_direct_read(
    cache: CacheView,
    file: Seq<u8>,
    offset: int,
    length: int,
    chunk: Seq<u8>,
)
    requires
        cache.agrees(file),
        0 <= offset,
        0 <= length,
        offset + length <= cache.file_length,
        chunk == file.subrange(offset, offset + cache.expected_len(offset, length)),
    ensures
        CacheReader::supply_fault(cache, offset, length, chunk) is None,
        chunk.subrange(0, length) == file.subrange(offset, offset + length),
        cache.supplied(offset, chunk).agrees(file),
{
    assert(chunk.subrange(0, length) =~= file.subrange(offset, offset + length));
    let after = cache.supplied(offset, chunk);
    assert forall|i: int| 0 <= i < after.entries.len() implies 0 <= (
    #[trigger] after.entries[i]).start && after.entries[i].start + after.entries[i].bytes.len()
        <= file.len() && after.entries[i].bytes == file.subrange(
        after.entries[i].start,
        after.entries[i].start + after.entries[i].bytes.len(),
    ) by {
        if i < cache.entries.len() {
            assert(after.entries[i] == cache.entries[i]);
        }
    }
}

/// A range that an entry covers is served, without a fetch.
pub proof fn lemma_covered_is_served(cache: CacheView, offset: int, length: int)
    requires
        cache.covered(offset, length),
        offset + length <= cache.file_length,
    ensures
        cache.step(offset, length) is Served,
{
    let i = choose|i: int| 0 <= i < cache.entries.len() && cache.entries[i].covers(offset, length);
    assert(cache.covering(offset, length)(i));
    lemma_first_where(cache.entries.len(), cache.covering(offset, length));
}

/// After a fetch, every range within the fetched bytes is served without
/// another fetch, and so is every range that was covered before.
pub proof fn lemma_fetch_covers(
    cache: CacheView,
    offset: int,
    chunk: Seq<u8>,
    inner_offset: int,
    inner_length: int,
)
    requires
        inner_offset + inner_length <= cache.file_length,
        cache.covered(inner_offset, inner_length) || (offset <= inner_offset && inner_offset
            + inner_length <= offset + chunk.len()),
    ensures
        cache.supplied(offset, chunk).step(inner_offset, inner_length) is Served,
{
    let after = cache.supplied(offset, chunk);
    if cache.covered(inner_offset, inner_length) {
        let i = choose|i: int|
            0 <= i < cache.entries.len() && cache.entries[i].covers(inner_offset, inner_length);
        assert(after.entries[i] == cache.entries[i]);
    } else {
        assert(after.entries[cache.entries.len() as int].covers(inner_offset, inner_length));
    }
    lemma_covered_is_served(after, inner_offset, inner_length);
}

/// What one reader fetched serves the readers after it: once a sequential
/// read at one position was answered by a fetch, a read of any range within
/// the fetched bytes is served without another fetch, from whichever
/// position the cache is turned to.
pub proof fn lemma_readers_share_cache(
    cache: CacheView,
    position: int,
    length: int,
    chunk: Seq<u8>,
    next_position: int,
    next_size: int,
)
    requires
        CacheReader::supply_fault(cache, position, length, chunk) is None,
        position <= next_position,
        0 <= next_size,
        next_position + next_size <= position + chunk.len(),
    ensures
        cache.supplied(position, chunk).repositioned(
            position + length,
            cache.read_size,
        ).repositioned(next_position, next_size).step(next_position, next_size) is Served,
{
    let after = cache.supplied(position, chunk).repositioned(
        position + length,
        cache.read_size,
    ).repositioned(next_position, next_size);
    assert(after.entries == cache.supplied(position, chunk).entries);
    assert(after.entries[cache.entries.len() as int].covers(next_position, next_size));
    lemma_covered_is_served(after, next_position, next_size);
}

/// What one read of the file itself gives for `length` bytes from `offset`:
/// those bytes, or what the file has left from `offset` where that is less.
pub open spec fn direct_read(file: Seq<u8>, offset: int, length: int) -> Seq<u8> {
    if offset + length <= file.len() {
        file.subrange(offset, offset + length)
    } else {
        file.subrange(offset, file.len() as int)
    }
}

/// A request within the file gives the bytes that one read of the same
/// range from the file itself gives, whether the cache serves it or
/// fetches for it, as long as the host delivers for a fetch what a read of
/// the file gives; and the cache goes on agreeing with the file.
pub proof fn lemma_request_is_direct_read(
    cache: CacheView,
    file: Seq<u8>,
    offset: int,
    length: int,
    chunk: Seq<u8>,
)
    requires
        cache.agrees(file),
        0 <= offset,
        0 <= length,
        offset + length <= cache.file_length,
        cache.step(offset, length) matches StepView::Fetch { offset: from, length: wanted }
            ==> chunk == direct_read(file, from, wanted),
    ensures
        match cache.step(offset, length) {
            StepView::Served(bytes) => bytes == direct_read(file, offset, length),
            StepView::Fetch { .. } => {
                &&& CacheReader::supply_fault(cache, offset, length, chunk) is None
                &&& chunk.subrange(0, length) == direct_read(file, offset, length)
                &&& cache.supplied(offset, chunk).agrees(file)
            },
            StepView::Failed(_) => false,
        },
{
    lemma_served_is_direct_read(cache, file, offset, length);
    match cache.step(offset, length) {
        StepView::Fetch { offset: from, length: wanted } => {
            lemma_supplied_is_direct_read(cache, file, offset, length, chunk);
        },
        _ => {},
    }
}

} // verus!
