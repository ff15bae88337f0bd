//! Checking command-line values: the device name and the model name.

use vstd::prelude::*;
use crate::device::Device;
use crate::text::concat_str;

verus! {

/// What `str::to_lowercase` gives for a text (full Unicode lowercasing).
pub uninterp spec fn lowercase(s: Seq<char>) -> Seq<char>;

/// A character lowercased the ASCII way: `A` to `Z` become `a` to `z`, others stay.
pub open spec fn ascii_lower_char(c: char) -> char {
    if 'A' <= c && c <= 'Z' {
        ((c as u32) + 32) as char
    } else {
        c
    }
}

/// `str::to_lowercase`: the text with every character lowercased. Its result is left to the
/// name `lowercase`; for ASCII text it is the ASCII lowercasing (Unicode maps `A`..`Z` to
/// `a`..`z` and leaves the other ASCII characters as they are).
#[verifier::external_body]
fn str_to_lowercase(s: &str) -> (r: String)
    ensures
        r@ == lowercase(s@),
        vstd::utf8::is_ascii_chars(s@) ==> r@ == s@.map_values(|c: char| ascii_lower_char(c)),
{
    s.to_lowercase()
}

/// Whether `c` is an ASCII letter or digit.
pub open spec fn ascii_alnum(c: char) -> bool {
    ('a' <= c && c <= 'z') || ('A' <= c && c <= 'Z') || ('0' <= c && c <= '9')
}

/// Whether `s` is a valid model name: an ASCII letter or digit, then ASCII letters, digits,
/// dots, underscores and hyphens.
pub open spec fn model_name_ok(s: Seq<char>) -> bool {
    &&& s.len() > 0
    &&& ascii_alnum(s[0])
    &&& forall|i: int| 1 <= i < s.len() ==> ascii_alnum(#[trigger] s[i]) || s[i] == '.' || s[i] == '_' || s[i] == '-'
}

/// The pattern a model name must match.
pub open spec fn model_name_pattern() -> Seq<char> {
    "^[a-zA-Z0-9][a-zA-Z0-9._-]*$"@
}

/// `regex::Regex::new` on `pattern`, then `Regex::is_match` on `haystack`. Only the model-name
/// pattern is admitted: it is valid syntax, so compiling it succeeds, and, anchored at both
/// ends of the haystack, it matches exactly the texts of `model_name_ok`.
#[verifier::external_body]
fn regex_is_match(pattern: &str, haystack: &str) -> (r: bool)
    requires
        pattern@ == model_name_pattern(),
    ensures
        r == model_name_ok(haystack@),
{
    regex::Regex::new(pattern).unwrap().is_match(haystack)
}

/// The message for a device name that is not one of the three.
pub open spec fn invalid_device_message(s: Seq<char>) -> Seq<char> {
    "Invalid device '"@ + s + "'. Must be one of: cuda, metal, cpu"@
}

/// The verdict on a device name `original` whose lowercase form is `lower`.
pub open spec fn device_verdict(original: Seq<char>, lower: Seq<char>) -> Result<Device, Seq<char>> {
    if lower == "cuda"@ {
        Ok(Device::Cuda)
    } else if lower == "metal"@ {
        Ok(Device::Metal)
    } else if lower == "cpu"@ {
        Ok(Device::Cpu)
    } else {
        Err(invalid_device_message(original))
    }
}

/// A result with its error text taken as characters.
pub open spec fn result_view<T>(r: Result<T, String>) -> Result<T, Seq<char>> {
    match r {
        Ok(x) => Ok(x),
        Err(e) => Err(e@),
    }
}

/// A result of strings taken as characters on both sides.
pub open spec fn strings_view(r: Result<String, String>) -> Result<Seq<char>, Seq<char>> {
    match r {
        Ok(x) => Ok(x@),
        Err(e) => Err(e@),
    }
}

/// The device named by `lower` (the lowercase form of `original`), or the error that names
/// `original`.
pub fn device_from_lowercase(lower: &str, original: &str) -> (r: Result<Device, String>)
    ensures
        result_view(r) == device_verdict(original@, lower@),
{
    if crate::text::str_eq(lower, "cuda") {
        Ok(Device::Cuda)
    } else if crate::text::str_eq(lower, "metal") {
        Ok(Device::Metal)
    } else if crate::text::str_eq(lower, "cpu") {
        Ok(Device::Cpu)
    } else {
        let a = concat_str("Invalid device '", original);
        Err(concat_str(a.as_str(), "'. Must be one of: cuda, metal, cpu"))
    }
}

/// The device named (in any letter case) by `device_str`: "cuda", "metal" or "cpu".
pub fn cli_validate_device(device_str: &str) -> (r: Result<Device, String>)
    ensures
        result_view(r) == device_verdict(device_str@, lowercase(device_str@)),
        vstd::utf8::is_ascii_chars(device_str@) ==> result_view(r) == device_verdict(
            device_str@,
            device_str@.map_values(|c: char| ascii_lower_char(c)),
        ),
{
    let lower = str_to_lowercase(device_str);
    device_from_lowercase(lower.as_str(), device_str)
}

/// The message for a model name that does not match the pattern.
pub open spec fn invalid_model_name_message(name: Seq<char>) -> Seq<char> {
    "Invalid model name '"@ + name
        + "'. Model names must:\n- Start with a letter or number\n- Contain only letters, numbers, dots (.), hyphens (-), or underscores (_)\n- Not contain spaces, slashes, or special characters"@
}

/// The verdict on a model name: refused when empty, accepted as it is when valid, refused with
/// the rules otherwise.
pub open spec fn model_name_verdict(name: Seq<char>) -> Result<Seq<char>, Seq<char>> {
    if name.len() == 0 {
        Err("Model name cannot be empty"@)
    } else if model_name_ok(name) {
        Ok(name)
    } else {
        Err(invalid_model_name_message(name))
    }
}

/// Checks a model name: an empty one is refused; otherwise it must start with an ASCII letter
/// or digit and hold only ASCII letters, digits, dots, hyphens and underscores.
pub fn cli_validate_model_name(model_name: &str) -> (r: Result<String, String>)
    ensures
        strings_view(r) == model_name_verdict(model_name@),
{
    if model_name.is_empty() {
        return Err("Model name cannot be empty".to_owned());
    }
    let pattern = "^[a-zA-Z0-9][a-zA-Z0-9._-]*$";
    if !regex_is_match(pattern, model_name) {
        let a = concat_str("Invalid model name '", model_name);
        return Err(concat_str(a.as_str(), "'. Model names must:\n- Start with a letter or number\n- Contain only letters, numbers, dots (.), hyphens (-), or underscores (_)\n- Not contain spaces, slashes, or special characters"));
    }
    Ok(model_name.to_owned())
}

/// Checks that a model name is safe as a folder name: the same rule as
/// `cli_validate_model_name`.
pub fn validate_model_name(model_name: &str) -> (r: Result<String, String>)
    ensures
        strings_view(r) == model_name_verdict(model_name@),
{
    cli_validate_model_name(model_name)
}

} // verus!
