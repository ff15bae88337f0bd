pub mod render;
pub mod sections;

pub use render::{tag_write_tag, tag_write_code_open, tag_write_code_close, tag_write_line_break};
pub use sections::{
    tag_write_ai_content, tag_write_ai_section, tag_write_prompt_content, tag_write_prompt_section,
};
pub mod lengths;

pub use lengths::{tag_get_byte_length_ai_item, tag_get_byte_offset_last_ai_start};
pub mod writer;

pub use writer::TagWriter;
