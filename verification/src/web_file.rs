pub mod cachereader;
pub mod complete_file;
pub mod streambuf;
pub mod webfile_chunk_reader;
