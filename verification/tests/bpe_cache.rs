#![allow(unused_imports)]

use poppins::bpe::{
    BPETokenizer, BPETokenWriter, PairCounts, BPECache, BPETokenCache, bpe_get_special_tokens,
    bpe_init_vocab, bpe_train_tokenize, bpe_create_pair_counts_map, bpe_train, bpe_infer_tokenize,
    split_into_tokens, apply_merges_fast, create_bpe_cache, get_bpe_cache_tokens,
    bpe_create_sequence,
};
use poppins::bpe::train_tokenize::{add_tag_to_sequence, add_text_to_sequence};
use poppins::sample::{
    Sample, SamplePromptEnum, SampleAiEnum, SampleLineBreak, SampleCode, SampleLanguage, SampleIndent,
};

    fn test_tokenizer() -> BPETokenizer {
        let samples = vec![
            Sample {
                system: Some(String::new()),
                thought: None,
                prompt_section: vec![
                    SamplePromptEnum::Text("Hello world".to_string()),
                ],
                ai_section: vec![
                    SampleAiEnum::Text("Hi there".to_string()),
                ],
            },
        ];

        let special_tokens = vec![
            "<unknown>".to_string(),
            "<sample>".to_string(),
            "</sample>".to_string(),
            "<system>".to_string(),
            "</system>".to_string(),
            "<thought>".to_string(),
            "</thought>".to_string(),
            "<prompt>".to_string(),
            "</prompt>".to_string(),
            "<ai>".to_string(),
            "</ai>".to_string(),
            "<text>".to_string(),
            "</text>".to_string(),
            "<source>".to_string(),
            "</source>".to_string(),
        ];

        let requested_tokens = vec![];
        let min_merge_frequency = 1;

        bpe_train(&samples, &special_tokens, &requested_tokens, min_merge_frequency).unwrap()
    }

    #[test]
    fn test_create_bpe_cache() {
        let mut cache = BPETokenCache::new();
        let tokenizer = &test_tokenizer();
        
        // Log what's in the tokenizer's vocabulary
        println!("Tokenizer special token count: {}", tokenizer.special_token_count);
        println!("First 20 vocab entries: {:?}", &tokenizer.vocab[..20.min(tokenizer.vocab.len())]);
        
        // Check each special token individually
        let test_strings = vec![
            "<sample>", "</sample>", "<system>", "</system>",
            "<thought>", "</thought>", "<prompt>", "</prompt>",
            "<ai>", "</ai>", "<text>", "</text>", "<source>", "</source>",
            "<line-break />", "<line-break count=\"2\" />"
        ];
        
        for s in &test_strings {
            let is_in_vocab = tokenizer.token_to_id(*s).is_some();
            println!("  '{}' in vocab: {}", s, is_in_vocab);
            if is_in_vocab {
                println!("    token_id: {:?}", tokenizer.token_to_id(*s).as_ref());
            }
        }
        
        let bpe_cache = create_bpe_cache(&mut cache, tokenizer);
        
        
        // Verify all fields are populated
        assert!(!bpe_cache.sample_open.is_empty());
        assert!(!bpe_cache.sample_close.is_empty());
        assert!(!bpe_cache.system_open.is_empty());
        assert!(!bpe_cache.system_close.is_empty());
        assert!(!bpe_cache.thought_open.is_empty());
        assert!(!bpe_cache.thought_close.is_empty());
        assert!(!bpe_cache.prompt_open.is_empty());
        assert!(!bpe_cache.prompt_close.is_empty());
        assert!(!bpe_cache.ai_open.is_empty());
        assert!(!bpe_cache.ai_close.is_empty());
        assert!(!bpe_cache.text_open.is_empty());
        assert!(!bpe_cache.text_close.is_empty());
        assert!(!bpe_cache.source_open.is_empty());
        assert!(!bpe_cache.source_close.is_empty());
        assert!(!bpe_cache.line_break_single.is_empty());
        assert!(!bpe_cache.line_break_double.is_empty());
        
        // Verify the cache contains all these strings
        for s in &test_strings {
            assert!(cache.contains_key(*s), "Missing key: {}", s);
        }
    }

    #[test]
    fn test_get_bpe_cache_tokens_different_strings() {
        let mut cache = BPETokenCache::new();
        let tokenizer = &test_tokenizer();
        
        let string1 = "<prompt>";
        let string2 = "</prompt>";
        
        // Log token IDs for these strings
        println!("'{}' token_id: {:?}", string1, tokenizer.token_to_id(string1).as_ref());
        println!("'{}' token_id: {:?}", string2, tokenizer.token_to_id(string2).as_ref());
        
        let tokens1 = get_bpe_cache_tokens(&mut cache, tokenizer, string1);
        let tokens2 = get_bpe_cache_tokens(&mut cache, tokenizer, string2);
        
        println!("tokens1 length: {}, tokens2 length: {}", tokens1.len(), tokens2.len());
        
        assert_ne!(tokens1, tokens2);
        
        assert!(cache.contains_key(string1));
        assert!(cache.contains_key(string2));
    }

    #[test]
    fn test_get_bpe_cache_tokens_empty_string() {
        let mut cache = BPETokenCache::new();
        let tokenizer = &test_tokenizer();
        let test_string = "";
        
        let tokens = get_bpe_cache_tokens(&mut cache, tokenizer, test_string);
        assert!(tokens.is_empty());
        
        assert!(cache.contains_key(test_string));
        assert_eq!(&cache.get(test_string).unwrap(), &tokens);
    }
