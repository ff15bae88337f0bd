#![allow(unused_imports)]

use std::io::Write;
use poppins::bpe::bpe_get_special_tokens;
use poppins::tag::{
    TagWriter, tag_write_tag, tag_write_code_open, tag_write_code_close, tag_write_line_break,
    tag_write_ai_content, tag_write_ai_section, tag_write_prompt_content, tag_write_prompt_section,
    tag_get_byte_length_ai_item, tag_get_byte_offset_last_ai_start,
};
use poppins::tag::lengths::{
    get_tag_byte_length, get_code_open_byte_length, get_code_close_byte_length,
    get_line_break_byte_length, get_ai_item_opening_byte_length,
};
use poppins::sample::{
    Sample, SamplePromptEnum, SampleAiEnum, SampleLineBreak, SampleCode, SampleLanguage, SampleIndent,
};

    #[test]
    fn test_tag_write_tag_opening() {
        let special_tokens = vec![
            "<sample>".to_string(),
            "</sample>".to_string(),
            "<prompt>".to_string(),
            "</prompt>".to_string(),
        ];
        
        let mut buffer = Vec::<u8>::new();
        
        // Test opening tag
        tag_write_tag(&mut buffer, "sample", true, &special_tokens);
        assert_eq!((&buffer), b"<sample>");
        
        buffer = Vec::<u8>::new();
        tag_write_tag(&mut buffer, "prompt", true, &special_tokens);
        assert_eq!((&buffer), b"<prompt>");
    }

    #[test]
    fn test_tag_write_tag_closing() {
        let special_tokens = vec![
            "<sample>".to_string(),
            "</sample>".to_string(),
            "<prompt>".to_string(),
            "</prompt>".to_string(),
        ];
        
        let mut buffer = Vec::<u8>::new();
        
        // Test closing tag
        tag_write_tag(&mut buffer, "sample", false, &special_tokens);
        assert_eq!((&buffer), b"</sample>");
        
        buffer = Vec::<u8>::new();
        tag_write_tag(&mut buffer, "prompt", false, &special_tokens);
        assert_eq!((&buffer), b"</prompt>");
    }

    #[test]
    fn test_tag_write_tag_fallback_to_generated() {
        let special_tokens = vec!["<sample>".to_string()]; // Missing closing tag
        let mut buffer = Vec::<u8>::new();
        
        // Should fall back to generated tag since </sample> isn't in special_tokens
        tag_write_tag(&mut buffer, "sample", false, &special_tokens);
        assert_eq!((&buffer), b"</sample>");
    }

    #[test]
    fn test_tag_write_tag_with_empty_special_tokens() {
        let special_tokens: Vec<String> = vec![];
        let mut buffer = Vec::<u8>::new();
        
        tag_write_tag(&mut buffer, "sample", true, &special_tokens);
        assert_eq!((&buffer), b"<sample>");
        
        let mut buffer = Vec::<u8>::new();
        tag_write_tag(&mut buffer, "prompt", false, &special_tokens);
        assert_eq!((&buffer), b"</prompt>");
    }

    #[test]
    fn test_tag_write_tag_multiple_writes() {
        let special_tokens = vec![
            "<sample>".to_string(),
            "</sample>".to_string(),
            "<prompt>".to_string(),
            "</prompt>".to_string(),
        ];
        
        let mut buffer = Vec::<u8>::new();
        
        tag_write_tag(&mut buffer, "sample", true, &special_tokens);
        tag_write_tag(&mut buffer, "prompt", true, &special_tokens);
        tag_write_tag(&mut buffer, "prompt", false, &special_tokens);
        tag_write_tag(&mut buffer, "sample", false, &special_tokens);
        
        assert_eq!((&buffer), b"<sample><prompt></prompt></sample>");
    }

    #[test]
    fn test_tag_write_tag_with_custom_writer() {
        // Test with Vec<u8> directly (implements Write)
        let special_tokens = vec!["<test>".to_string()];
        let mut buffer = Vec::new();
        
        tag_write_tag(&mut buffer, "test", true, &special_tokens);
        assert_eq!(buffer, b"<test>");
    }
