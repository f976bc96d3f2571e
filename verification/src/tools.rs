//! What a tool hands back: a structured text, and pictures.

use base64::Engine;
use vstd::prelude::*;

verus! {

/// The character of a six-bit number.
pub open spec fn sextet(n: int) -> char {
    if n < 26 {
        ('A' as int + n) as char
    } else if n < 52 {
        ('a' as int + n - 26) as char
    } else if n < 62 {
        ('0' as int + n - 52) as char
    } else if n == 62 {
        '+'
    } else {
        '/'
    }
}

/// Bytes in base64: three bytes are four six-bit numbers, and what is missing
/// from the last three is filled up with equals signs.
pub open spec fn base64_text(bytes: Seq<u8>) -> Seq<char>
    decreases bytes.len(),
{
    if bytes.len() == 0 {
        Seq::empty()
    } else if bytes.len() == 1 {
        seq![sextet((bytes[0] / 4) as int), sextet(bytes[0] % 4 * 16), '=', '=']
    } else if bytes.len() == 2 {
        seq![
            sextet((bytes[0] / 4) as int),
            sextet(bytes[0] % 4 * 16 + bytes[1] / 16),
            sextet(bytes[1] % 16 * 4),
            '=',
        ]
    } else {
        seq![
            sextet((bytes[0] / 4) as int),
            sextet(bytes[0] % 4 * 16 + bytes[1] / 16),
            sextet(bytes[1] % 16 * 4 + bytes[2] / 64),
            sextet((bytes[2] % 64) as int),
        ] + base64_text(bytes.skip(3))
    }
}

/// Calls `encode` of `base64::engine::general_purpose::STANDARD`. The engine
/// uses the standard alphabet of base64 and fills up with equals signs.
#[verifier::external_body]
fn encode_base64(bytes: &Vec<u8>) -> (encoded: String)
    ensures
        encoded@ == base64_text(bytes@),
{
    base64::engine::general_purpose::STANDARD.encode(bytes)
}

/// A part of what a tool hands back.
#[derive(Debug)]
pub enum Content {
    Text { text: String },
    Image { data: String, mime_type: String },
}

/// Whether a part is a picture of this PNG file.
pub open spec fn is_picture(content: Content, png: Seq<u8>) -> bool {
    match content {
        Content::Image { data, mime_type } => data@ == base64_text(png) && mime_type@
            == "image/png"@,
        _ => false,
    }
}

/// What a tool hands back when it succeeds: the structured result as text,
/// and the pictures in their order.
pub fn success_content(structured: String, images: &Vec<Vec<u8>>) -> (contents: Vec<Content>)
    ensures
        contents@.len() == images@.len() + 1,
        contents@[0] == (Content::Text { text: structured }),
        forall|i: int|
            0 <= i < images@.len() ==> is_picture(#[trigger] contents@[i + 1], images@[i]@),
{
    let mut contents: Vec<Content> = vec![Content::Text { text: structured }];
    let mut at: usize = 0;
    while at < images.len()
        invariant
            at <= images.len(),
            contents@.len() == at + 1,
            contents@[0] == (Content::Text { text: structured }),
            forall|i: int| 0 <= i < at ==> is_picture(#[trigger] contents@[i + 1], images@[i]@),
        decreases images.len() - at,
    {
        contents.push(
            Content::Image {
                data: encode_base64(&images[at]),
                mime_type: "image/png".to_owned(),
            },
        );
        at += 1;
    }
    contents
}

/// What a tool hands back is its text first, and then a picture for each image,
/// in their order.
pub proof fn every_picture_is_handed_back(
    structured: String,
    images: Vec<Vec<u8>>,
    contents: Vec<Content>,
    at: int,
)
    requires
        call_ensures(success_content, (structured, &images), contents),
    ensures
        contents@.len() == images@.len() + 1,
        contents@[0] is Text && contents@[0]->text == structured,
        0 <= at < images@.len() ==> {
            let picture = contents@[at + 1];
            &&& picture is Image
            &&& picture->data@ == base64_text(images@[at]@)
            &&& picture->mime_type@ == "image/png"@
        },
{
    if 0 <= at < images@.len() {
        assert(is_picture(contents@[at + 1], images@[at]@));
    }
}

/// The six-bit number of a character.
pub open spec fn sextet_value(c: char) -> int {
    if 'A' <= c <= 'Z' {
        c as int - 'A' as int
    } else if 'a' <= c <= 'z' {
        c as int - 'a' as int + 26
    } else if '0' <= c <= '9' {
        c as int - '0' as int + 52
    } else if c == '+' {
        62
    } else {
        63
    }
}

/// The bytes can be read back from their text: each three bytes are the digits,
/// to the base of 64, of one number.
pub proof fn three_bytes_are_one_number(bytes: Seq<u8>)
    requires
        bytes.len() >= 3,
    ensures
        ({
            let t = base64_text(bytes);
            &&& t.len() >= 4
            &&& sextet_value(t[0]) * 262144 + sextet_value(t[1]) * 4096 + sextet_value(t[2]) * 64
                + sextet_value(t[3]) == bytes[0] * 65536 + bytes[1] * 256 + bytes[2]
            &&& t.skip(4) == base64_text(bytes.skip(3))
        }),
{
    let t = base64_text(bytes);
    assert(t.skip(4) =~= base64_text(bytes.skip(3)));
}

/// What is left over after the threes is written in two or three digits, as if
/// zeros followed, and filled up to four characters.
pub proof fn leftover_bytes_are_filled_up(bytes: Seq<u8>)
    ensures
        bytes.len() == 0 ==> base64_text(bytes).len() == 0,
        bytes.len() == 1 ==> {
            let t = base64_text(bytes);
            &&& t.len() == 4 && t[2] == '=' && t[3] == '='
            &&& sextet_value(t[0]) * 64 + sextet_value(t[1]) == bytes[0] * 16
        },
        bytes.len() == 2 ==> {
            let t = base64_text(bytes);
            &&& t.len() == 4 && t[3] == '='
            &&& sextet_value(t[0]) * 4096 + sextet_value(t[1]) * 64 + sextet_value(t[2])
                == bytes[0] * 1024 + bytes[1] * 4
        },
{
}

} // verus!
