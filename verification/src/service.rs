//! Decisions of the colour-analysis service that do not involve floating
//! point: which upload field holds the image, the request's image id, the
//! image-size limit, how many candidate colours to ask for, and how a colour
//! is written.

use vstd::prelude::*;
use vstd::std_specs::iter::IteratorSpec;
use crate::text::push_char;

verus! {

broadcast use vstd::string::group_string_axioms;

/// The number of colours returned when a request does not say.
pub fn default_n() -> (n: usize)
    ensures
        n == 5,
{
    5
}

/// The number of colours a request asks for, at least one.
pub fn normalized_count(n: usize) -> (c: usize)
    ensures
        c == if n == 0 {
            1
        } else {
            n
        },
{
    if n == 0 {
        1
    } else {
        n
    }
}

/// Whether the characters of `s` begin with those of `prefix`.
fn chars_start_with(s: &str, prefix: &[char]) -> (b: bool)
    ensures
        b == (prefix@.len() <= s@.len() && s@.take(prefix@.len() as int) == prefix@),
{
    let mut it = s.chars();
    let mut i: usize = 0;
    while i < prefix.len()
        invariant
            i <= prefix@.len(),
            it.remaining() == s@.skip(i as int),
            i <= s@.len(),
            forall|j: int| 0 <= j < i ==> s@[j] == prefix@[j],
        decreases prefix@.len() - i,
    {
        match it.next() {
            Some(c) => {
                assert(c == s@[i as int]);
                if c != prefix[i] {
                    assert(prefix@.len() <= s@.len() ==> s@.take(prefix@.len() as int)[i as int]
                        != prefix@[i as int]);
                    return false;
                }
            },
            None => {
                return false;
            },
        }
        i = i + 1;
        assert(s@.skip(i as int) =~= s@.skip(i - 1).drop_first());
    }
    assert(s@.take(prefix@.len() as int) =~= prefix@);
    true
}

/// Whether the characters of `s` are exactly `word`.
fn chars_equal(s: &str, word: &[char]) -> (b: bool)
    ensures
        b == (s@ == word@),
{
    if !chars_start_with(s, word) {
        assert(s@ == word@ ==> s@.take(word@.len() as int) =~= word@);
        return false;
    }
    let mut it = s.chars();
    let mut i: usize = 0;
    while i < word.len()
        invariant
            i <= word@.len(),
            word@.len() <= s@.len(),
            it.remaining() == s@.skip(i as int),
        decreases word@.len() - i,
    {
        let _ = it.next();
        i = i + 1;
        assert(s@.skip(i as int) =~= s@.skip(i - 1).drop_first());
    }
    match it.next() {
        Some(_) => {
            assert(s@.len() > word@.len());
            false
        },
        None => {
            assert(s@ =~= s@.take(word@.len() as int));
            true
        },
    }
}

/// The characters `image/`.
pub open spec fn image_mime_prefix() -> Seq<char> {
    seq!['i', 'm', 'a', 'g', 'e', '/']
}

/// Whether an upload field holds the image: it is named `image` or `file`,
/// or its content type starts with `image/`.
pub open spec fn is_image_field_spec(name: Seq<char>, content_type: Seq<char>) -> bool {
    ||| name == seq!['i', 'm', 'a', 'g', 'e']
    ||| name == seq!['f', 'i', 'l', 'e']
    ||| (content_type.len() >= 6 && content_type.take(6) == image_mime_prefix())
}

/// Decides whether a multipart field is the uploaded image.
pub fn is_image_field(name: &str, content_type: &str) -> (b: bool)
    ensures
        b == is_image_field_spec(name@, content_type@),
{
    let image: [char; 5] = ['i', 'm', 'a', 'g', 'e'];
    let file: [char; 4] = ['f', 'i', 'l', 'e'];
    let mime: [char; 6] = ['i', 'm', 'a', 'g', 'e', '/'];
    assert(image@ =~= seq!['i', 'm', 'a', 'g', 'e']);
    assert(file@ =~= seq!['f', 'i', 'l', 'e']);
    assert(mime@ =~= image_mime_prefix());
    let named: bool = chars_equal(name, image.as_slice()) || chars_equal(name, file.as_slice());
    named || chars_start_with(content_type, mime.as_slice())
}

/// The image id a colour request names: `None` when the parameter is
/// absent or empty.
pub fn required_image_id(param: Option<String>) -> (res: Option<String>)
    ensures
        res == match param {
            Some(id) => if id@.len() > 0 {
                Some(id)
            } else {
                None::<String>
            },
            None => None::<String>,
        },
{
    match param {
        Some(id) => {
            let empty: String = String::new();
            assert(id@.len() == 0 ==> id@ =~= empty@);
            if id == empty {
                None
            } else {
                Some(id)
            }
        },
        None => None,
    }
}

/// Why a decoded image cannot be stored.
#[derive(Debug, Clone, Copy, PartialEq, Eq, Structural)]
pub enum DimensionError {
    WidthTooLarge,
    HeightTooLarge,
}

/// Narrows decoded image dimensions to the 16-bit sizes the colour
/// extraction accepts; the width is checked first.
pub fn checked_dimensions(width: u32, height: u32) -> (res: Result<(u16, u16), DimensionError>)
    ensures
        width > 0xFFFF ==> res == Err::<(u16, u16), DimensionError>(DimensionError::WidthTooLarge),
        width <= 0xFFFF && height > 0xFFFF ==> res == Err::<(u16, u16), DimensionError>(
            DimensionError::HeightTooLarge,
        ),
        width <= 0xFFFF && height <= 0xFFFF ==> res == Ok::<(u16, u16), DimensionError>(
            (width as u16, height as u16),
        ),
{
    if width > 0xFFFF {
        return Err(DimensionError::WidthTooLarge);
    }
    if height > 0xFFFF {
        return Err(DimensionError::HeightTooLarge);
    }
    Ok((width as u16, height as u16))
}

/// How many candidate colours to extract for a request of `n` colours:
/// with an earth bias, eight extra candidates up to sixteen in all, so that
/// the bias has colours to promote; without one, exactly `n`.
pub fn candidate_count(n: usize, biased: bool) -> (c: usize)
    ensures
        c == if biased {
            if n + 8 < 16 {
                n + 8
            } else {
                16
            }
        } else {
            n as int
        },
{
    if !biased {
        n
    } else if n < 8 {
        n + 8
    } else {
        16
    }
}

/// The upper-case hexadecimal digit of a value below 16.
pub open spec fn hex_digit(v: int) -> char {
    if v < 10 {
        (48 + v) as char
    } else {
        (55 + v) as char
    }
}

/// The CSS colour `#RRGGBB` of an RGB triple, in upper-case hexadecimal.
pub open spec fn hex_color_text(r: u8, g: u8, b: u8) -> Seq<char> {
    seq![
        '#',
        hex_digit(r as int / 16),
        hex_digit(r as int % 16),
        hex_digit(g as int / 16),
        hex_digit(g as int % 16),
        hex_digit(b as int / 16),
        hex_digit(b as int % 16),
    ]
}

fn hex_digit_char(v: u8) -> (c: char)
    requires
        v < 16,
    ensures
        c == hex_digit(v as int),
{
    if v < 10 {
        (48 + v) as char
    } else {
        (55 + v) as char
    }
}

/// Writes an RGB triple as `#RRGGBB` in upper-case hexadecimal.
pub fn hex_color(r: u8, g: u8, b: u8) -> (s: String)
    ensures
        s@ == hex_color_text(r, g, b),
{
    let mut s: String = String::new();
    push_char(&mut s, '#');
    push_char(&mut s, hex_digit_char(r / 16));
    push_char(&mut s, hex_digit_char(r % 16));
    push_char(&mut s, hex_digit_char(g / 16));
    push_char(&mut s, hex_digit_char(g % 16));
    push_char(&mut s, hex_digit_char(b / 16));
    push_char(&mut s, hex_digit_char(b % 16));
    assert(s@ =~= hex_color_text(r, g, b));
    s
}

} // verus!
