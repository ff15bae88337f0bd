pub mod tokenizer;
pub mod special_tokens;
pub mod token_writer;

pub use tokenizer::BPETokenizer;
pub use special_tokens::bpe_get_special_tokens;
pub use token_writer::BPETokenWriter;
pub mod train_tokenize;

pub use train_tokenize::bpe_train_tokenize;
pub mod init_vocab;

pub use init_vocab::bpe_init_vocab;
pub mod pair_counts;
pub mod pair_count_map;

pub use pair_counts::PairCounts;
pub use pair_count_map::bpe_create_pair_counts_map;
pub mod train;
pub use train::bpe_train;
pub mod infer;
pub mod cache;

pub use infer::{bpe_infer_tokenize, split_into_tokens, apply_merges_fast};
pub use cache::{BPECache, BPETokenCache, create_bpe_cache, get_bpe_cache_tokens};
pub mod create_sequence;
pub mod round_trip;

pub use create_sequence::bpe_create_sequence;
pub mod json;

pub use json::{BPETokenizerJSON, TokenMetadata, TokenizerConfig, tokenizer_json};
