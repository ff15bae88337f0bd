#![allow(unused_imports)]

use std::io::Write;
use poppins::bpe::bpe_get_special_tokens;
use poppins::tag::{
    TagWriter, tag_write_tag, tag_write_code_open, tag_write_code_close, tag_write_line_break,
    tag_write_ai_content, tag_write_ai_section, tag_write_prompt_content, tag_write_prompt_section,
    tag_get_byte_length_ai_item, tag_get_byte_offset_last_ai_start,
};
use poppins::tag::lengths::{
    get_tag_byte_length, get_code_open_byte_length, get_code_close_byte_length,
    get_line_break_byte_length, get_ai_item_opening_byte_length,
};
use poppins::sample::{
    Sample, SamplePromptEnum, SampleAiEnum, SampleLineBreak, SampleCode, SampleLanguage, SampleIndent,
};

    #[test]
    fn test_tag_write_prompt_section_empty() {
        let special_tokens: Vec<String> = vec![
            "<prompt>".to_string(),
            "</prompt>".to_string(),
        ];
        
        let prompt_section: Vec<SamplePromptEnum> = vec![];
        let mut buffer = Vec::<u8>::new();
        
        tag_write_prompt_section(&mut buffer, &prompt_section, &special_tokens);
        assert_eq!((&buffer), b"<prompt></prompt>");
    }

    #[test]
    fn test_tag_write_prompt_section_single_text() {
        let special_tokens: Vec<String> = vec![
            "<prompt>".to_string(),
            "</prompt>".to_string(),
        ];
        
        let prompt_section = vec![
            SamplePromptEnum::Text("Hello, world!".to_string()),
        ];
        
        let mut buffer = Vec::<u8>::new();
        tag_write_prompt_section(&mut buffer, &prompt_section, &special_tokens);
        
        assert_eq!((&buffer), b"<prompt>Hello, world!</prompt>");
    }

    #[test]
    fn test_tag_write_prompt_section_multiple_text() {
        let special_tokens: Vec<String> = vec![
            "<prompt>".to_string(),
            "</prompt>".to_string(),
        ];
        
        let prompt_section = vec![
            SamplePromptEnum::Text("First sentence. ".to_string()),
            SamplePromptEnum::Text("Second sentence.".to_string()),
        ];
        
        let mut buffer = Vec::<u8>::new();
        tag_write_prompt_section(&mut buffer, &prompt_section, &special_tokens);
        
        assert_eq!((&buffer), b"<prompt>First sentence. Second sentence.</prompt>");
    }

    #[test]
    fn test_tag_write_prompt_section_with_code() {
        let special_tokens: Vec<String> = vec![
            "<prompt>".to_string(),
            "</prompt>".to_string(),
            "<js>".to_string(),
            "</js>".to_string(),
        ];
        
        let prompt_section = vec![
            SamplePromptEnum::Text("Write code: ".to_string()),
            SamplePromptEnum::Code(SampleCode {
                lang: SampleLanguage::Js,
                inline: false,
                indent: SampleIndent::Zero,
                content: "console.log('test');".to_string(),
            }),
        ];
        
        let mut buffer = Vec::<u8>::new();
        tag_write_prompt_section(&mut buffer, &prompt_section, &special_tokens);
        
        assert_eq!(
            (&buffer),
            b"<prompt>Write code: <js>console.log('test');</js></prompt>"
        );
    }

    #[test]
    fn test_tag_write_prompt_section_with_inline_code() {
        let special_tokens: Vec<String> = vec![
            "<prompt>".to_string(),
            "</prompt>".to_string(),
            "<js inline=\"true\">".to_string(),
            "</js>".to_string(),
        ];
        
        let prompt_section = vec![
            SamplePromptEnum::Text("Use ".to_string()),
            SamplePromptEnum::Code(SampleCode {
                lang: SampleLanguage::Js,
                inline: true,
                indent: SampleIndent::Zero,
                content: "const x = 42;".to_string(),
            }),
            SamplePromptEnum::Text(" in your code.".to_string()),
        ];
        
        let mut buffer = Vec::<u8>::new();
        tag_write_prompt_section(&mut buffer, &prompt_section, &special_tokens);
        
        assert_eq!(
            (&buffer),
            b"<prompt>Use <js inline=\"true\">const x = 42;</js> in your code.</prompt>"
        );
    }

    #[test]
    fn test_tag_write_prompt_section_with_indented_code() {
        let special_tokens: Vec<String> = vec![
            "<prompt>".to_string(),
            "</prompt>".to_string(),
            "<rust indent=\"2\">".to_string(),
            "</rust>".to_string(),
        ];
        
        let prompt_section = vec![
            SamplePromptEnum::Text("Rust code:\n".to_string()),
            SamplePromptEnum::Code(SampleCode {
                lang: SampleLanguage::Rust,
                inline: false,
                indent: SampleIndent::Two,
                content: "fn main() {\n  println!(\"hello\");\n}".to_string(),
            }),
        ];
        
        let mut buffer = Vec::<u8>::new();
        tag_write_prompt_section(&mut buffer, &prompt_section, &special_tokens);
        
        assert_eq!(
            (&buffer),
            b"<prompt>Rust code:\n<rust indent=\"2\">fn main() {\n  println!(\"hello\");\n}</rust></prompt>"
        );
    }

    #[test]
    fn test_tag_write_prompt_section_with_line_break() {
        let special_tokens: Vec<String> = vec![
            "<prompt>".to_string(),
            "</prompt>".to_string(),
            "<line-break />".to_string(),
        ];
        
        let prompt_section = vec![
            SamplePromptEnum::Text("First line".to_string()),
            SamplePromptEnum::LineBreak(SampleLineBreak { count: 1 }),
            SamplePromptEnum::Text("Second line".to_string()),
        ];
        
        let mut buffer = Vec::<u8>::new();
        tag_write_prompt_section(&mut buffer, &prompt_section, &special_tokens);
        
        assert_eq!(
            (&buffer),
            b"<prompt>First line<line-break />Second line</prompt>"
        );
    }

    #[test]
    fn test_tag_write_prompt_section_with_double_line_break() {
        let special_tokens: Vec<String> = vec![
            "<prompt>".to_string(),
            "</prompt>".to_string(),
            "<line-break count=\"2\" />".to_string(),
        ];
        
        let prompt_section = vec![
            SamplePromptEnum::Text("Paragraph 1".to_string()),
            SamplePromptEnum::LineBreak(SampleLineBreak { count: 2 }),
            SamplePromptEnum::Text("Paragraph 2".to_string()),
        ];
        
        let mut buffer = Vec::<u8>::new();
        tag_write_prompt_section(&mut buffer, &prompt_section, &special_tokens);
        
        assert_eq!(
            (&buffer),
            b"<prompt>Paragraph 1<line-break count=\"2\" />Paragraph 2</prompt>"
        );
    }

    #[test]
    fn test_tag_write_prompt_section_mixed_items() {
        let special_tokens: Vec<String> = vec![
            "<prompt>".to_string(),
            "</prompt>".to_string(),
            "<ts>".to_string(),
            "</ts>".to_string(),
            "<line-break />".to_string(),
        ];
        
        let prompt_section = vec![
            SamplePromptEnum::Text("Question: ".to_string()),
            SamplePromptEnum::Code(SampleCode {
                lang: SampleLanguage::Ts,
                inline: false,
                indent: SampleIndent::Zero,
                content: "type Answer = string;".to_string(),
            }),
            SamplePromptEnum::LineBreak(SampleLineBreak { count: 1 }),
            SamplePromptEnum::Text("Explain your answer.".to_string()),
        ];
        
        let mut buffer = Vec::<u8>::new();
        tag_write_prompt_section(&mut buffer, &prompt_section, &special_tokens);
        
        assert_eq!(
            (&buffer),
            b"<prompt>Question: <ts>type Answer = string;</ts><line-break />Explain your answer.</prompt>"
        );
    }

    #[test]
    fn test_tag_write_prompt_section_fallback_to_generated_tags() {
        let special_tokens: Vec<String> = vec![
            "<prompt>".to_string(),
            // Missing closing prompt tag and other tags
        ];
        
        let prompt_section = vec![
            SamplePromptEnum::Text("Test".to_string()),
            SamplePromptEnum::Code(SampleCode {
                lang: SampleLanguage::Html,
                inline: false,
                indent: SampleIndent::Zero,
                content: "<div>test</div>".to_string(),
            }),
        ];
        
        let mut buffer = Vec::<u8>::new();
        tag_write_prompt_section(&mut buffer, &prompt_section, &special_tokens);
        
        // Should fall back to generated tags for missing special tokens
        assert_eq!(
            (&buffer),
            b"<prompt>Test<html><div>test</div></html></prompt>"
        );
    }

    #[test]
    fn test_tag_write_prompt_section_with_empty_special_tokens() {
        let special_tokens: Vec<String> = vec![];
        
        let prompt_section = vec![
            SamplePromptEnum::Text("Hello ".to_string()),
            SamplePromptEnum::Code(SampleCode {
                lang: SampleLanguage::Rust,
                inline: false,
                indent: SampleIndent::One,
                content: "println!(\"world\");".to_string(),
            }),
        ];
        
        let mut buffer = Vec::<u8>::new();
        tag_write_prompt_section(&mut buffer, &prompt_section, &special_tokens);
        
        assert_eq!(
            (&buffer),
            b"<prompt>Hello <rust indent=\"1\">println!(\"world\");</rust></prompt>"
        );
    }

    #[test]
    fn test_tag_write_prompt_section_with_all_language_variants() {
        let special_tokens: Vec<String> = vec![];
        let languages = ["html", "css", "js", "ts", "jsx", "tsx", "rust", "bash", "xml", "json", "txt", "md"];
        
        for lang in languages {
            let prompt_section = vec![
                SamplePromptEnum::Text(format!("{} code: ", lang)),
                SamplePromptEnum::Code(SampleCode {
                    lang: SampleLanguage::from_str(lang),
                    inline: false,
                    indent: SampleIndent::Zero,
                    content: "test content".to_string(),
                }),
            ];
            
            let mut buffer = Vec::<u8>::new();
            tag_write_prompt_section(&mut buffer, &prompt_section, &special_tokens);
            
            let expected = format!("<prompt>{} code: <{}>test content</{}></prompt>", lang, lang, lang);
            assert_eq!((&buffer), expected.as_bytes());
        }
    }

    #[test]
    fn test_tag_write_prompt_section_complex_scenario() {
        let special_tokens: Vec<String> = vec![
            "<prompt>".to_string(),
            "</prompt>".to_string(),
            "<js>".to_string(),
            "</js>".to_string(),
            "<css>".to_string(),
            "</css>".to_string(),
            "<line-break />".to_string(),
            "<line-break count=\"2\" />".to_string(),
        ];
        
        let prompt_section = vec![
            SamplePromptEnum::Text("Create a component with:\n".to_string()),
            SamplePromptEnum::Code(SampleCode {
                lang: SampleLanguage::Js,
                inline: false,
                indent: SampleIndent::Zero,
                content: "function App() {\n  return <div>Hello</div>;\n}".to_string(),
            }),
            SamplePromptEnum::LineBreak(SampleLineBreak { count: 1 }),
            SamplePromptEnum::Text("And style it:\n".to_string()),
            SamplePromptEnum::Code(SampleCode {
                lang: SampleLanguage::Css,
                inline: false,
                indent: SampleIndent::Two,
                content: ".app {\n  color: blue;\n}".to_string(),
            }),
            SamplePromptEnum::LineBreak(SampleLineBreak { count: 2 }),
            SamplePromptEnum::Text("Make it responsive.".to_string()),
        ];
        
        let mut buffer = Vec::<u8>::new();
        tag_write_prompt_section(&mut buffer, &prompt_section, &special_tokens);
        
        let expected = b"<prompt>Create a component with:\n<js>function App() {\n  return <div>Hello</div>;\n}</js><line-break />And style it:\n<css indent=\"2\">.app {\n  color: blue;\n}</css><line-break count=\"2\" />Make it responsive.</prompt>";
        assert_eq!((&buffer), expected);
    }

    #[test]
    fn test_tag_write_prompt_section_with_custom_writer() {
        let special_tokens: Vec<String> = vec![
            "<prompt>".to_string(),
            "</prompt>".to_string(),
        ];
        
        let prompt_section = vec![
            SamplePromptEnum::Text("Test".to_string()),
        ];
        
        let mut buffer: Vec<u8> = Vec::new();
        tag_write_prompt_section(&mut buffer, &prompt_section, &special_tokens);
        
        assert_eq!(buffer, b"<prompt>Test</prompt>");
    }
