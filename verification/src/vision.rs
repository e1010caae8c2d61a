//! The computable parts of describing an image: content-type checks, the
//! data URL sent to the vision model, the choice of API key, and the reply.

use vstd::prelude::*;
use base64::Engine;
use crate::text::{chars_of, str_starts_with, has_prefix, owned, joined};

verus! {

/// `content_type` names an image (it starts with `image/`).
pub fn is_image_format(content_type: &str) -> (r: bool)
    ensures
        r == has_prefix(content_type@, "image/"@),
{
    str_starts_with(content_type, "image/")
}

/// The position of the first `c` in `s`, if any.
pub open spec fn first_index(s: Seq<char>, c: char) -> Option<int>
    decreases s.len(),
{
    if s.len() == 0 {
        None
    } else if s[0] == c {
        Some(0)
    } else {
        match first_index(s.drop_first(), c) {
            Some(i) => Some(i + 1),
            None => None,
        }
    }
}

/// The second `/`-separated part of `s` (between the first `/` and the next
/// one, or the end), or `unknown` when `s` has no `/`.
pub open spec fn image_format_of(s: Seq<char>) -> Seq<char> {
    match first_index(s, '/') {
        None => "unknown"@,
        Some(i) => {
            let rest = s.skip(i + 1);
            match first_index(rest, '/') {
                None => rest,
                Some(j) => rest.take(j),
            }
        },
    }
}

/// The first `c` at or after `from`, scanning a character vector.
fn find_char(v: &Vec<char>, from: usize, c: char) -> (r: Option<usize>)
    requires
        from <= v.len(),
    ensures
        match first_index(v@.skip(from as int), c) {
            Some(i) => r == Some((from + i) as usize),
            None => r is None,
        },
    decreases v.len() - from,
{
    if from == v.len() {
        assert(v@.skip(from as int).len() == 0);
        None
    } else if v[from] == c {
        assert(v@.skip(from as int)[0] == c);
        Some(from)
    } else {
        assert(v@.skip(from as int).drop_first() =~= v@.skip(from + 1));
        find_char(v, from + 1, c)
    }
}

/// The subtype of a content type: `image/png` gives `png`; a content type
/// without `/` gives `unknown`.
pub fn get_image_format(content_type: &str) -> (r: String)
    ensures
        r@ == image_format_of(content_type@),
{
    let cs = chars_of(content_type);
    assert(cs@.skip(0) =~= cs@);
    match find_char(&cs, 0, '/') {
        None => owned("unknown"),
        Some(i) => {
            proof {
                lemma_first_index_bound(cs@, '/');
            }
            let ghost rest = content_type@.skip(i + 1);
            match find_char(&cs, i + 1, '/') {
                None => {
                    let part = content_type.substring_char(i + 1, cs.len());
                    assert(part@ =~= rest);
                    owned(part)
                },
                Some(j) => {
                    proof {
                        lemma_first_index_bound(rest, '/');
                    }
                    let part = content_type.substring_char(i + 1, j);
                    assert(part@ =~= rest.take(j - i - 1));
                    owned(part)
                },
            }
        },
    }
}

/// A found position lies within the sequence.
pub proof fn lemma_first_index_bound(s: Seq<char>, c: char)
    ensures
        first_index(s, c) matches Some(i) ==> 0 <= i < s.len() && s[i] == c,
    decreases s.len(),
{
    if s.len() > 0 && s[0] != c {
        lemma_first_index_bound(s.drop_first(), c);
    }
}

/// The base64 digit for a value below 64 (standard alphabet).
pub open spec fn b64_digit(v: int) -> char {
    if v < 26 {
        (65 + v) as char
    } else if v < 52 {
        (97 + v - 26) as char
    } else if v < 62 {
        (48 + v - 52) as char
    } else if v == 62 {
        '+'
    } else {
        '/'
    }
}

/// Standard base64 with `=` padding: each three bytes become four digits; a
/// last one or two bytes become two or three digits and padding.
pub open spec fn base64_standard(b: Seq<u8>) -> Seq<char>
    decreases b.len(),
{
    if b.len() == 0 {
        Seq::empty()
    } else if b.len() == 1 {
        let x0 = b[0] as int;
        seq![b64_digit(x0 / 4), b64_digit((x0 % 4) * 16), '=', '=']
    } else if b.len() == 2 {
        let x0 = b[0] as int;
        let x1 = b[1] as int;
        seq![b64_digit(x0 / 4), b64_digit((x0 % 4) * 16 + x1 / 16), b64_digit((x1 % 16) * 4), '=']
    } else {
        let x0 = b[0] as int;
        let x1 = b[1] as int;
        let x2 = b[2] as int;
        seq![
            b64_digit(x0 / 4),
            b64_digit((x0 % 4) * 16 + x1 / 16),
            b64_digit((x1 % 16) * 4 + x2 / 64),
            b64_digit(x2 % 64),
        ] + base64_standard(b.skip(3))
    }
}

/// Calls `base64::engine::general_purpose::STANDARD.encode` (base64 0.21).
/// Claimed of it: the result is the standard-alphabet, padded base64 text of
/// the bytes. The crate panics when the encoded length overflows `usize`,
/// which no input of at most half of `usize::MAX` bytes reaches.
#[verifier::external_body]
fn base64_encode(data: &[u8]) -> (r: String)
    requires
        data@.len() <= usize::MAX / 2,
    ensures
        r@ == base64_standard(data@),
{
    base64::engine::general_purpose::STANDARD.encode(data)
}

/// The data URL of a JPEG image: `data:image/jpeg;base64,` and its base64.
pub fn image_data_url(image_data: &[u8]) -> (r: String)
    requires
        image_data@.len() <= usize::MAX / 2,
    ensures
        r@ == "data:image/jpeg;base64,"@ + base64_standard(image_data@),
{
    let encoded = base64_encode(image_data);
    joined("data:image/jpeg;base64,", encoded.as_str())
}

/// The endpoint of the vision model: the configured one, else the
/// OpenAI-compatible DashScope chat endpoint.
pub fn vision_endpoint(configured: Option<String>) -> (r: String)
    ensures
        match configured {
            Some(e) => r@ == e@,
            None => r@ == "https://dashscope.aliyuncs.com/compatible-mode/v1/chat/completions"@,
        },
{
    match configured {
        Some(e) => e,
        None => owned("https://dashscope.aliyuncs.com/compatible-mode/v1/chat/completions"),
    }
}

/// The API key to use: the one given, else the first configured one, else
/// the error `No API key configured for vision model`.
pub fn select_api_key(
    given: Option<String>,
    glm_key: Option<String>,
    openai_key: Option<String>,
) -> (r: Result<String, String>)
    ensures
        match (given, glm_key, openai_key) {
            (Some(k), _, _) => r matches Ok(x) && x@ == k@,
            (None, Some(k), _) => r matches Ok(x) && x@ == k@,
            (None, None, Some(k)) => r matches Ok(x) && x@ == k@,
            (None, None, None) => r matches Err(e) && e@ == "No API key configured for vision model"@,
        },
{
    match given {
        Some(k) => Ok(k),
        None => match glm_key {
            Some(k) => Ok(k),
            None => match openai_key {
                Some(k) => Ok(k),
                None => Err(owned("No API key configured for vision model")),
            },
        },
    }
}

/// The description in a vision reply: the content of the first choice, or
/// the error `No content in vision response`.
pub fn vision_reply_content(choices: Vec<String>) -> (r: Result<String, String>)
    ensures
        choices@.len() > 0 ==> (r matches Ok(x) && x@ == choices@[0]@),
        choices@.len() == 0 ==> (r matches Err(e) && e@ == "No content in vision response"@),
{
    let mut choices = choices;
    if choices.len() == 0 {
        Err(owned("No content in vision response"))
    } else {
        Ok(choices.remove(0))
    }
}

} // verus!
