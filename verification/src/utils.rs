pub mod record_batch_util;
pub mod sequences;
pub mod text;
