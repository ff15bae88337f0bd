#![allow(unused_imports)]

use poppins::bpe::{
    BPETokenizer, BPETokenWriter, PairCounts, BPECache, BPETokenCache, bpe_get_special_tokens,
    bpe_init_vocab, bpe_train_tokenize, bpe_create_pair_counts_map, bpe_train, bpe_infer_tokenize,
    split_into_tokens, apply_merges_fast, create_bpe_cache, get_bpe_cache_tokens,
    bpe_create_sequence,
};
use poppins::bpe::train_tokenize::{add_tag_to_sequence, add_text_to_sequence};
use poppins::sample::{
    Sample, SamplePromptEnum, SampleAiEnum, SampleLineBreak, SampleCode, SampleLanguage, SampleIndent,
};

    fn create_test_tokenizer() -> BPETokenizer {
        let special_tokens = bpe_get_special_tokens();
        
        // Start with all special tokens
        let mut vocab = special_tokens.clone();
        
        // Add all ASCII printable characters
        for c in ' '..='~' {
            let token = c.to_string();
            if !vocab.contains(&token) {
                vocab.push(token);
            }
        }
        
        // Add Unicode characters
        let unicode_chars = ['é', 'á', 'í', 'ó', 'ú', 'ñ'];
        for c in unicode_chars {
            let token = c.to_string();
            if !vocab.contains(&token) {
                vocab.push(token);
            }
        }
        
        let initial_token_count = vocab.len() as u32;
        
        BPETokenizer {
            vocab,
            merges: Vec::new(),
            special_token_count: special_tokens.len() as u32,
            initial_token_count,
        }
    }

    #[test]
    fn test_bpe_token_writer_simple_text() {
        let tokenizer = create_test_tokenizer();
        
        let mut writer = BPETokenWriter::new(Vec::new(), &tokenizer);
            writer.write_all(b"Hello");
        
        let sequence = writer.into_sequence();
        
        assert_eq!(sequence.len(), 5);
        
        let token_strings: Vec<String> = sequence.iter()
            .map(|&id| tokenizer.vocab[id as usize].clone())
            .collect();
        
        assert_eq!(token_strings[0], "H");
        assert_eq!(token_strings[1], "e");
        assert_eq!(token_strings[2], "l");
        assert_eq!(token_strings[3], "l");
        assert_eq!(token_strings[4], "o");
    }

    #[test]
    fn test_bpe_token_writer_simple_tag() {
        let tokenizer = create_test_tokenizer();
        
        let mut writer = BPETokenWriter::new(Vec::new(), &tokenizer);
            writer.write_all(b"<prompt>");
        
        let sequence = writer.into_sequence();
        
        assert_eq!(sequence.len(), 1);
        
        let token_strings: Vec<String> = sequence.iter()
            .map(|&id| tokenizer.vocab[id as usize].clone())
            .collect();
        
        assert_eq!(token_strings[0], "<prompt>");
    }

    #[test]
    fn test_bpe_token_writer_tag_with_content() {
        let tokenizer = create_test_tokenizer();
        
        let mut writer = BPETokenWriter::new(Vec::new(), &tokenizer);
            writer.write_all(b"<prompt>Hello</prompt>");
        
        let sequence = writer.into_sequence();
        
        assert_eq!(sequence.len(), 7);
        
        let token_strings: Vec<String> = sequence.iter()
            .map(|&id| tokenizer.vocab[id as usize].clone())
            .collect();
        
        assert_eq!(token_strings[0], "<prompt>");
        assert_eq!(token_strings[1], "H");
        assert_eq!(token_strings[2], "e");
        assert_eq!(token_strings[3], "l");
        assert_eq!(token_strings[4], "l");
        assert_eq!(token_strings[5], "o");
        assert_eq!(token_strings[6], "</prompt>");
    }

    #[test]
    fn test_bpe_token_writer_nested_tags() {
        let tokenizer = create_test_tokenizer();
        
        let mut writer = BPETokenWriter::new(Vec::new(), &tokenizer);
            writer.write_all(b"<ai><text>Hello</text></ai>");
        
        let sequence = writer.into_sequence();
        
        assert_eq!(sequence.len(), 9);
        
        let token_strings: Vec<String> = sequence.iter()
            .map(|&id| tokenizer.vocab[id as usize].clone())
            .collect();
        
        assert_eq!(token_strings[0], "<ai>");
        assert_eq!(token_strings[1], "<text>");
        assert_eq!(token_strings[2], "H");
        assert_eq!(token_strings[3], "e");
        assert_eq!(token_strings[4], "l");
        assert_eq!(token_strings[5], "l");
        assert_eq!(token_strings[6], "o");
        assert_eq!(token_strings[7], "</text>");
        assert_eq!(token_strings[8], "</ai>");
    }

    #[test]
    fn test_bpe_token_writer_tag_with_attributes() {
        let tokenizer = create_test_tokenizer();
        
        let mut writer = BPETokenWriter::new(Vec::new(), &tokenizer);
            writer.write_all(b"<js indent=\"2\">console.log()</js>");
        
        let sequence = writer.into_sequence();
        
        let token_strings: Vec<String> = sequence.iter()
            .map(|&id| tokenizer.vocab[id as usize].clone())
            .collect();
        
        // Verify the opening tag exists (it should be in special tokens)
        assert!(token_strings.iter().any(|t| t.contains("<js") && t.contains("indent")));
        assert_eq!(token_strings[token_strings.len() - 1], "</js>");
    }

    #[test]
    fn test_bpe_token_writer_line_break() {
        let tokenizer = create_test_tokenizer();
        
        let mut writer = BPETokenWriter::new(Vec::new(), &tokenizer);
            writer.write_all(b"<line-break />");
        
        let sequence = writer.into_sequence();
        
        assert_eq!(sequence.len(), 1);
        
        let token_strings: Vec<String> = sequence.iter()
            .map(|&id| tokenizer.vocab[id as usize].clone())
            .collect();
        
        assert_eq!(token_strings[0], "<line-break />");
    }

    #[test]
    fn test_bpe_token_writer_mixed_content() {
        let tokenizer = create_test_tokenizer();
        
        let mut writer = BPETokenWriter::new(Vec::new(), &tokenizer);
            writer.write_all(b"<text>Hello <b>world</b>!</text>");
        
        let sequence = writer.into_sequence();
        
        let token_strings: Vec<String> = sequence.iter()
            .map(|&id| tokenizer.vocab[id as usize].clone())
            .collect();
        
        assert_eq!(token_strings[0], "<text>");
        assert_eq!(token_strings[1], "H");
        assert_eq!(token_strings[2], "e");
        assert_eq!(token_strings[3], "l");
        assert_eq!(token_strings[4], "l");
        assert_eq!(token_strings[5], "o");
        assert_eq!(token_strings[6], " ");
        // The <b> tag is not a special token, so it gets tokenized as characters
        assert_eq!(token_strings[7], "<");
        assert_eq!(token_strings[8], "b");
        assert_eq!(token_strings[9], ">");
        assert_eq!(token_strings[10], "w");
        assert_eq!(token_strings[11], "o");
        assert_eq!(token_strings[12], "r");
        assert_eq!(token_strings[13], "l");
        assert_eq!(token_strings[14], "d");
        assert_eq!(token_strings[15], "<");
        assert_eq!(token_strings[16], "/");
        assert_eq!(token_strings[17], "b");
        assert_eq!(token_strings[18], ">");
        assert_eq!(token_strings[19], "!");
        assert_eq!(token_strings[20], "</text>");
    }

    #[test]
    fn test_bpe_token_writer_empty() {
        let tokenizer = create_test_tokenizer();
        
        let mut writer = BPETokenWriter::new(Vec::new(), &tokenizer);
            writer.write_all(b"");
        
        let sequence = writer.into_sequence();
        
        assert_eq!(sequence.len(), 0);
    }

    #[test]
    fn test_bpe_token_writer_multiple_writes() {
        let tokenizer = create_test_tokenizer();
        
        let mut writer = BPETokenWriter::new(Vec::new(), &tokenizer);
            writer.write_all(b"<prompt>");
            writer.write_all(b"Hello");
            writer.write_all(b"</prompt>");
        
        let sequence = writer.into_sequence();
        
        assert_eq!(sequence.len(), 7);
        
        let token_strings: Vec<String> = sequence.iter()
            .map(|&id| tokenizer.vocab[id as usize].clone())
            .collect();
        
        assert_eq!(token_strings[0], "<prompt>");
        assert_eq!(token_strings[1], "H");
        assert_eq!(token_strings[2], "e");
        assert_eq!(token_strings[3], "l");
        assert_eq!(token_strings[4], "l");
        assert_eq!(token_strings[5], "o");
        assert_eq!(token_strings[6], "</prompt>");
    }

    #[test]
    fn test_bpe_token_writer_incomplete_tag() {
        let tokenizer = create_test_tokenizer();
        
        let mut writer = BPETokenWriter::new(Vec::new(), &tokenizer);
            writer.write_all(b"<prompt");
            writer.flush();
        
        let sequence = writer.into_sequence();
        
        // Incomplete tag should be treated as text and tokenized character by character
        assert_eq!(sequence.len(), 7);
        
        let token_strings: Vec<String> = sequence.iter()
            .map(|&id| tokenizer.vocab[id as usize].clone())
            .collect();
        
        assert_eq!(token_strings[0], "<");
        assert_eq!(token_strings[1], "p");
        assert_eq!(token_strings[2], "r");
        assert_eq!(token_strings[3], "o");
        assert_eq!(token_strings[4], "m");
        assert_eq!(token_strings[5], "p");
        assert_eq!(token_strings[6], "t");
    }

    #[test]
    fn test_bpe_token_writer_unknown_tag() {
        let tokenizer = create_test_tokenizer();
        
        let mut writer = BPETokenWriter::new(Vec::new(), &tokenizer);
            writer.write_all(b"<xyz>");
        
        let sequence = writer.into_sequence();
        
        // Unknown tag should be tokenized character by character since it's not a special token
        assert_eq!(sequence.len(), 5); // < x y z >
        
        let token_strings: Vec<String> = sequence.iter()
            .map(|&id| tokenizer.vocab[id as usize].clone())
            .collect();
        
        assert_eq!(token_strings[0], "<");
        assert_eq!(token_strings[1], "x");
        assert_eq!(token_strings[2], "y");
        assert_eq!(token_strings[3], "z");
        assert_eq!(token_strings[4], ">");
    }

    #[test]
    fn test_bpe_token_writer_unicode() {
        let tokenizer = create_test_tokenizer();
        
        let mut writer = BPETokenWriter::new(Vec::new(), &tokenizer);
            writer.write_all("<text>café</text>".as_bytes());
        
        let sequence = writer.into_sequence();
        
        let token_strings: Vec<String> = sequence.iter()
            .map(|&id| tokenizer.vocab[id as usize].clone())
            .collect();
        
        assert_eq!(token_strings[0], "<text>");
        assert_eq!(token_strings[1], "c");
        assert_eq!(token_strings[2], "a");
        assert_eq!(token_strings[3], "f");
        assert_eq!(token_strings[4], "é");
        assert_eq!(token_strings[5], "</text>");
    }

    #[test]
    fn test_bpe_token_writer_complex_scenario() {
        let tokenizer = create_test_tokenizer();
        
        let mut writer = BPETokenWriter::new(Vec::new(), &tokenizer);
            writer.write_all(b"<sample><prompt>What is AI?</prompt><ai><text>AI is artificial intelligence.</text></ai></sample>");
        
        let sequence = writer.into_sequence();
        
        let token_strings: Vec<String> = sequence.iter()
            .map(|&id| tokenizer.vocab[id as usize].clone())
            .collect();
        
        // Verify the structure
        let mut idx = 0;
        assert_eq!(token_strings[idx], "<sample>"); idx += 1;
        assert_eq!(token_strings[idx], "<prompt>"); idx += 1;
        assert_eq!(token_strings[idx], "W"); idx += 1;
        assert_eq!(token_strings[idx], "h"); idx += 1;
        assert_eq!(token_strings[idx], "a"); idx += 1;
        assert_eq!(token_strings[idx], "t"); idx += 1;
        assert_eq!(token_strings[idx], " "); idx += 1;
        assert_eq!(token_strings[idx], "i"); idx += 1;
        assert_eq!(token_strings[idx], "s"); idx += 1;
        assert_eq!(token_strings[idx], " "); idx += 1;
        assert_eq!(token_strings[idx], "A"); idx += 1;
        assert_eq!(token_strings[idx], "I"); idx += 1;
        assert_eq!(token_strings[idx], "?"); idx += 1;
        assert_eq!(token_strings[idx], "</prompt>"); idx += 1;
        assert_eq!(token_strings[idx], "<ai>"); idx += 1;
        assert_eq!(token_strings[idx], "<text>"); idx += 1;
        assert_eq!(token_strings[idx], "A"); idx += 1;
        assert_eq!(token_strings[idx], "I"); idx += 1;
        assert_eq!(token_strings[idx], " "); idx += 1;
        assert_eq!(token_strings[idx], "i"); idx += 1;
        assert_eq!(token_strings[idx], "s"); idx += 1;
        assert_eq!(token_strings[idx], " "); idx += 1;
        assert_eq!(token_strings[idx], "a"); idx += 1;
        assert_eq!(token_strings[idx], "r"); idx += 1;
        assert_eq!(token_strings[idx], "t"); idx += 1;
        assert_eq!(token_strings[idx], "i"); idx += 1;
        assert_eq!(token_strings[idx], "f"); idx += 1;
        assert_eq!(token_strings[idx], "i"); idx += 1;
        assert_eq!(token_strings[idx], "c"); idx += 1;
        assert_eq!(token_strings[idx], "i"); idx += 1;
        assert_eq!(token_strings[idx], "a"); idx += 1;
        assert_eq!(token_strings[idx], "l"); idx += 1;
        assert_eq!(token_strings[idx], " "); idx += 1;
        assert_eq!(token_strings[idx], "i"); idx += 1;
        assert_eq!(token_strings[idx], "n"); idx += 1;
        assert_eq!(token_strings[idx], "t"); idx += 1;
        assert_eq!(token_strings[idx], "e"); idx += 1;
        assert_eq!(token_strings[idx], "l"); idx += 1;
        assert_eq!(token_strings[idx], "l"); idx += 1;
        assert_eq!(token_strings[idx], "i"); idx += 1;
        assert_eq!(token_strings[idx], "g"); idx += 1;
        assert_eq!(token_strings[idx], "e"); idx += 1;
        assert_eq!(token_strings[idx], "n"); idx += 1;
        assert_eq!(token_strings[idx], "c"); idx += 1;
        assert_eq!(token_strings[idx], "e"); idx += 1;
        assert_eq!(token_strings[idx], "."); idx += 1;
        assert_eq!(token_strings[idx], "</text>"); idx += 1;
        assert_eq!(token_strings[idx], "</ai>"); idx += 1;
        assert_eq!(token_strings[idx], "</sample>"); idx += 1;
        
        assert_eq!(idx, token_strings.len());
    }
