#![allow(unused_imports)]

use poppins::bpe::{
    BPETokenizer, BPETokenWriter, PairCounts, BPECache, BPETokenCache, bpe_get_special_tokens,
    bpe_init_vocab, bpe_train_tokenize, bpe_create_pair_counts_map, bpe_train, bpe_infer_tokenize,
    split_into_tokens, apply_merges_fast, create_bpe_cache, get_bpe_cache_tokens,
    bpe_create_sequence,
};
use poppins::bpe::train_tokenize::{add_tag_to_sequence, add_text_to_sequence};
use poppins::sample::{
    Sample, SamplePromptEnum, SampleAiEnum, SampleLineBreak, SampleCode, SampleLanguage, SampleIndent,
};

    #[test]
    fn test_bpe_tokenizer_fields() {
        let tokenizer = BPETokenizer {
            vocab: vec!["<unknown>".to_string(), "test".to_string()],
            merges: vec![("a".to_string(), "b".to_string())],
            special_token_count: 1,
            initial_token_count: 3,
        };
        
        assert_eq!(tokenizer.vocab.len(), 2);
        assert_eq!(tokenizer.token_to_id("<unknown>"), Some(0));
        assert_eq!(tokenizer.token_to_id("test"), Some(1));
        assert_eq!(tokenizer.merges.len(), 1);
        assert_eq!(tokenizer.special_token_count, 1);
    }
