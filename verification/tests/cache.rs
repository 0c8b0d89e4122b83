use trace_engine::error::EngineError;
use trace_engine::web_file::cachereader::{CacheReader, ReadStep, PREFETCH_SIZE};
use trace_engine::web_file::complete_file::CompleteFile;
use trace_engine::web_file::streambuf::{ChunkRequest, WebFileReader};
use trace_engine::web_file::webfile_chunk_reader::WebFileChunkReader;

/// A host that holds the file and counts the calls made of it.
struct Host {
    file: Vec<u8>,
    calls: usize,
}

impl Host {
    fn new(size: usize) -> Host {
        Host { file: (0..size).map(|i| (i * 7 % 251) as u8).collect(), calls: 0 }
    }

    fn read_chunk(&mut self, offset: u64, length: usize) -> Vec<u8> {
        self.calls += 1;
        let start = (offset as usize).min(self.file.len());
        let end = (start + length).min(self.file.len());
        self.file[start..end].to_vec()
    }
}

fn request(cache: &mut CacheReader, host: &mut Host, offset: u64, length: usize) -> Result<Vec<u8>, EngineError> {
    cache.request_through(offset, length, |from, wanted| Some(host.read_chunk(from, wanted)))
}

fn request_in_steps(cache: &mut CacheReader, host: &mut Host, offset: u64, length: usize) -> Result<Vec<u8>, EngineError> {
    match cache.request(offset, length) {
        ReadStep::Served(bytes) => Ok(bytes),
        ReadStep::Failed(e) => Err(e),
        ReadStep::Fetch { offset: from, length: wanted } => {
            let chunk = host.read_chunk(from, wanted);
            cache.supply(offset, length, chunk)
        }
    }
}

#[test]
fn request_in_steps_is_request_through_the_host() {
    let mut host = Host::new(400_000);
    let mut one = CacheReader::init_reader(0, 400_000);
    let mut other = CacheReader::init_reader(0, 400_000);
    for (offset, length) in [(7u64, 9usize), (10, 2), (300_000, 100_000), (399_999, 2), (350_000, 1)] {
        let a = request(&mut one, &mut host, offset, length);
        let b = request_in_steps(&mut other, &mut host, offset, length);
        assert_eq!(a, b);
        assert_eq!(one.entry_count(), other.entry_count());
    }
    assert_eq!(host.calls, 4);
}

#[test]
fn failing_host_is_an_io_error() {
    let mut cache = CacheReader::init_reader(0, 1000);
    assert_eq!(cache.request_through(0, 10, |_, _| None), Err(EngineError::IoError));
    assert_eq!(cache.request_through(0, 10, |_, _| Some(Vec::new())), Err(EngineError::IoError));
    assert_eq!(cache.entry_count(), 0);
    assert_eq!(cache.read_through(10, |_, _| None), Err(EngineError::IoError));
    assert_eq!(cache.position(), 0);
    assert_eq!(cache.entry_count(), 0);
}

#[test]
fn request_returns_the_bytes_of_a_direct_read() {
    let mut host = Host::new(400_000);
    let mut cache = CacheReader::init_reader(0, 400_000);
    for (offset, length) in [(0u64, 10usize), (5, 100), (169_990, 20), (399_990, 10), (200_000, 180_000), (0, 0)] {
        let bytes = request(&mut cache, &mut host, offset, length).unwrap();
        assert_eq!(bytes, host.file[offset as usize..offset as usize + length].to_vec());
    }
}

#[test]
fn covered_request_makes_no_host_call() {
    let mut host = Host::new(400_000);
    let mut cache = CacheReader::init_reader(0, 400_000);
    request(&mut cache, &mut host, 1000, 16).unwrap();
    assert_eq!(host.calls, 1);
    assert_eq!(cache.entry_count(), 1);
    request(&mut cache, &mut host, 1000, 16).unwrap();
    request(&mut cache, &mut host, 1016, 4000).unwrap();
    request(&mut cache, &mut host, 1000 + PREFETCH_SIZE as u64 - 1, 1).unwrap();
    assert_eq!(host.calls, 1);
    request(&mut cache, &mut host, 1000 + PREFETCH_SIZE as u64 - 1, 2).unwrap();
    assert_eq!(host.calls, 2);
    request(&mut cache, &mut host, 999, 2).unwrap();
    assert_eq!(host.calls, 3);
    assert_eq!(cache.entry_count(), 3);
}

#[test]
fn miss_asks_for_the_larger_of_length_and_prefetch_size() {
    let cache = CacheReader::init_reader(0, 1_000_000);
    match cache.request(10, 5) {
        ReadStep::Fetch { offset, length } => {
            assert_eq!(offset, 10);
            assert_eq!(length, PREFETCH_SIZE);
        }
        _ => panic!("a miss was expected"),
    }
    match cache.request(10, 500_000) {
        ReadStep::Fetch { offset, length } => {
            assert_eq!(offset, 10);
            assert_eq!(length, 500_000);
        }
        _ => panic!("a miss was expected"),
    }
}

#[test]
fn request_beyond_the_file_is_out_of_range() {
    let mut host = Host::new(100);
    let mut cache = CacheReader::init_reader(0, 100);
    assert_eq!(request(&mut cache, &mut host, 90, 11).err(), Some(EngineError::OutOfRange));
    assert_eq!(request(&mut cache, &mut host, 101, 0).err(), Some(EngineError::OutOfRange));
    assert_eq!(request(&mut cache, &mut host, u64::MAX, 2).err(), Some(EngineError::OutOfRange));
    assert_eq!(host.calls, 0);
    assert_eq!(request(&mut cache, &mut host, 90, 10).unwrap().len(), 10);
    assert_eq!(request(&mut cache, &mut host, 100, 0).unwrap().len(), 0);
}

#[test]
fn short_delivery_is_an_io_error_and_leaves_the_cache() {
    let mut cache = CacheReader::init_reader(0, 1000);
    assert_eq!(cache.supply(0, 10, vec![0; 10]).err(), Some(EngineError::IoError));
    assert_eq!(cache.supply(0, 10, vec![0; 1001]).err(), Some(EngineError::IoError));
    assert_eq!(cache.supply(995, 10, vec![0; 5]).err(), Some(EngineError::OutOfRange));
    assert_eq!(cache.entry_count(), 0);
    assert_eq!(cache.supply(990, 10, vec![7; 10]).unwrap(), vec![7; 10]);
    assert_eq!(cache.entry_count(), 1);
}

#[test]
fn sequential_reads_move_the_position() {
    let mut host = Host::new(300_000);
    let mut cache = CacheReader::init_reader(100, 300_000);
    assert_eq!(cache.position(), 100);
    assert_eq!(cache.file_length(), 300_000);
    let first = match cache.read(8) {
        ReadStep::Fetch { offset, length } => {
            let chunk = host.read_chunk(offset, length);
            cache.supply_read(8, chunk).unwrap()
        }
        _ => panic!("a miss was expected"),
    };
    assert_eq!(first, host.file[100..108].to_vec());
    assert_eq!(cache.position(), 108);
    match cache.read(4) {
        ReadStep::Served(bytes) => assert_eq!(bytes, host.file[108..112].to_vec()),
        _ => panic!("a hit was expected"),
    }
    assert_eq!(cache.position(), 112);
    cache.request_reader(50, 4);
    assert_eq!(cache.position(), 50);
    assert_eq!(cache.entry_count(), 1);
    assert_eq!(cache.file_length(), 300_000);
    assert_eq!(host.calls, 1);
}

#[test]
fn decoder_reads_go_through_the_cache() {
    let mut host = Host::new(50_000);
    let mut cache = CacheReader::init_reader(0, 50_000);
    let bridge = WebFileChunkReader::new(50_000);
    assert_eq!(bridge.len(), 50_000);
    match bridge.get_read(&cache, 49_990, 11) {
        ReadStep::Failed(e) => assert_eq!(e, EngineError::OutOfRange),
        _ => panic!("a failure was expected"),
    }
    match bridge.get_read(&cache, 40_000, 100) {
        ReadStep::Fetch { offset, length } => {
            assert_eq!((offset, length), (40_000, PREFETCH_SIZE));
            let chunk = host.read_chunk(offset, length);
            assert_eq!(chunk.len(), 10_000);
            cache.supply(40_000, 100, chunk).unwrap();
        }
        _ => panic!("a miss was expected"),
    }
    match bridge.get_read(&cache, 45_000, 5_000) {
        ReadStep::Served(bytes) => assert_eq!(bytes, host.file[45_000..50_000].to_vec()),
        _ => panic!("a hit was expected"),
    }
}

#[test]
fn complete_file_reads_in_sequence() {
    let file = CompleteFile::new();
    assert_eq!(file.offset, 0);
    assert!(file.array.is_empty());
    let file = file.read_into_buffer(&vec![1, 2, 3]);
    let mut file = file.read_into_buffer(&vec![4, 5]);
    assert_eq!(file.array, vec![1, 2, 3, 4, 5]);
    let mut two = vec![0; 2];
    assert_eq!(file.read(&mut two), 2);
    assert_eq!(two, vec![1, 2]);
    let mut four = vec![9; 4];
    assert_eq!(file.read(&mut four), 0);
    assert_eq!(four, vec![9; 4]);
    assert_eq!(file.read_exact(&mut four), Err(EngineError::OutOfRange));
    let mut three = vec![0; 3];
    assert_eq!(file.read_exact(&mut three), Ok(()));
    assert_eq!(three, vec![3, 4, 5]);
    assert_eq!(file.offset, 5);
    let mut none = vec![];
    assert_eq!(file.read_to_end(&mut none), 0);
    let mut one = vec![0];
    assert_eq!(file.read_to_end(&mut one), 0);
}

#[test]
fn ranges_are_loaded_in_chunks_of_eight_kibibytes() {
    assert_eq!(CompleteFile::next_chunk(0, 20_000), Some(8192));
    assert_eq!(CompleteFile::next_chunk(8192, 20_000), Some(8192));
    assert_eq!(CompleteFile::next_chunk(16_384, 20_000), Some(3616));
    assert_eq!(CompleteFile::next_chunk(20_000, 20_000), None);
    assert_eq!(CompleteFile::next_chunk(0, 0), None);
}

#[test]
fn host_reader_moves_behind_each_chunk() {
    let mut reader = WebFileReader::new_from_file(10, 100);
    assert_eq!(reader.length, 100);
    assert_eq!(reader.chunk_request(4), ChunkRequest { offset: 10, length: 4 });
    assert_eq!(reader.accept_chunk(4, &vec![1, 2, 3, 4, 5]).unwrap(), vec![1, 2, 3, 4]);
    assert_eq!(reader.offset, 14);
    assert_eq!(reader.accept_chunk(4, &vec![1, 2]).err(), Some(EngineError::IoError));
    assert_eq!(reader.offset, 14);
    let mut far = WebFileReader::init_reader(u64::MAX - 1);
    assert_eq!(far.length, 0);
    assert_eq!(far.accept_chunk(2, &vec![1, 2]).err(), Some(EngineError::OutOfRange));
    assert_eq!(far.accept_chunk(1, &vec![1, 2]).unwrap(), vec![1]);
}

#[test]
fn host_takes_offsets_and_lengths_up_to_its_largest_number() {
    let near = ChunkRequest { offset: 5, length: 7 };
    assert_eq!(near.host_arguments(), Ok((5, 7)));
    let last = ChunkRequest { offset: i32::MAX as u64, length: i32::MAX as usize };
    assert_eq!(last.host_arguments(), Ok((i32::MAX, i32::MAX)));
    let far = ChunkRequest { offset: i32::MAX as u64 + 1, length: 1 };
    assert_eq!(far.host_arguments(), Err(EngineError::OutOfRange));
    let long = ChunkRequest { offset: 0, length: i32::MAX as usize + 1 };
    assert_eq!(long.host_arguments(), Err(EngineError::OutOfRange));
}

#[test]
fn sequential_read_takes_what_the_file_has_left() {
    let bridge = WebFileChunkReader::new(100);
    assert_eq!(bridge.readable(0, 10), 10);
    assert_eq!(bridge.readable(95, 10), 5);
    assert_eq!(bridge.readable(90, 10), 10);
    assert_eq!(bridge.readable(100, 10), 0);
    assert_eq!(bridge.readable(200, 10), 0);
    assert_eq!(bridge.readable(0, 0), 0);
}

#[test]
fn second_reader_is_served_from_what_the_first_fetched() {
    let mut host = Host { file: vec![10, 11, 12, 13, 14, 15, 16, 17], calls: 0 };
    let mut cache = CacheReader::init_reader(0, 8);
    cache.request_reader(0, 4);
    let first = match cache.read(4) {
        ReadStep::Fetch { offset, length } => {
            let chunk = host.read_chunk(offset, length);
            cache.supply_read(4, chunk).unwrap()
        }
        _ => panic!("a miss was expected"),
    };
    assert_eq!(first, vec![10, 11, 12, 13]);
    assert_eq!(host.calls, 1);
    cache.request_reader(1, 2);
    match cache.read(2) {
        ReadStep::Served(bytes) => assert_eq!(bytes, vec![11, 12]),
        _ => panic!("a hit was expected"),
    }
    assert_eq!(cache.position(), 3);
    assert_eq!(host.calls, 1);
}

#[test]
fn readers_through_the_host_share_the_cache() {
    let mut host = Host { file: vec![10, 11, 12, 13, 14, 15, 16, 17], calls: 0 };
    let mut cache = CacheReader::init_reader(0, 8);
    cache.request_reader(0, 4);
    let first = cache.read_through(4, |from, wanted| Some(host.read_chunk(from, wanted)));
    assert_eq!(first, Ok(vec![10, 11, 12, 13]));
    assert_eq!(cache.position(), 4);
    cache.request_reader(1, 2);
    let second = cache.read_through(2, |from, wanted| Some(host.read_chunk(from, wanted)));
    assert_eq!(second, Ok(vec![11, 12]));
    assert_eq!(cache.position(), 3);
    let third = cache.read_through(5, |from, wanted| Some(host.read_chunk(from, wanted)));
    assert_eq!(third, Ok(vec![13, 14, 15, 16, 17]));
    assert_eq!(cache.position(), 8);
    let beyond = cache.read_through(1, |from, wanted| Some(host.read_chunk(from, wanted)));
    assert_eq!(beyond, Err(EngineError::OutOfRange));
    assert_eq!(cache.position(), 8);
    assert_eq!(host.calls, 1);
}
