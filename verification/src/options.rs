//! Caller-facing options: the layout record handed to `generate`, the
//! background description, and the helpers that pick random defaults through
//! outside collaborators. All randomness lives here, behind wrappers; the
//! rendering pipeline itself is deterministic.

use vstd::prelude::*;
use vstd::string::StringExecFns;

use rand::Rng;

use crate::bits::{extract_bits, extracted_bits, hash_bytes, valid_hash};
use crate::grid::bits_needed;
use crate::render::{render, render_spec};
use crate::xml::digit_char;

verus! {

/// The background of the identicon: a corner radius and a fill color token.
pub struct Background {
    /// Rounded corner radius.
    pub r: u16,
    /// A color token for the vector markup (e.g. `"#ffffff"`).
    pub color: String,
}

impl Default for Background {
    /// A light gray background with square corners.
    fn default() -> (b: Self)
        ensures
            b.r == 0,
            b.color@ == "rgb(240, 240, 240)"@,
    {
        Background { r: 0, color: String::from_str("rgb(240, 240, 240)") }
    }
}

/// The argument record for `generate`: grid side length, fill color, pixel
/// width, hash string and background.
pub struct IdenticonOptions {
    /// Side length of the square grid.
    pub size: u16,
    /// Fill color token for set cells.
    pub color: String,
    /// Pixel width (and height) of the image.
    pub width: u16,
    /// The hexadecimal string the icon is derived from.
    pub hash: String,
    /// The background of the icon.
    pub background: Background,
}

/// One byte printed as two lowercase base-16 digits.
pub open spec fn hex_lower_digit(d: int) -> char {
    if d < 10 {
        digit_char(d)
    } else if d == 10 {
        'a'
    } else if d == 11 {
        'b'
    } else if d == 12 {
        'c'
    } else if d == 13 {
        'd'
    } else if d == 14 {
        'e'
    } else {
        'f'
    }
}

/// The lowercase base-16 encoding of a byte sequence, two characters per
/// byte, high nibble first.
pub open spec fn hex_lower(bs: Seq<u8>) -> Seq<char> {
    Seq::new(
        2 * bs.len(),
        |i: int|
            if i % 2 == 0 {
                hex_lower_digit(bs[i / 2] as int / 16)
            } else {
                hex_lower_digit(bs[i / 2] as int % 16)
            },
    )
}

proof fn lemma_hex_lower_valid(bs: Seq<u8>)
    ensures
        hex_lower(bs).len() == 2 * bs.len(),
        valid_hash(hex_lower(bs)),
{
    let h = hex_lower(bs);
    assert forall|i: int| (h.len() % 2) as int <= i < h.len() implies crate::bits::is_hex_digit(
        #[trigger] h[i],
    ) by {
        let d: int = if i % 2 == 0 {
            bs[i / 2] as int / 16
        } else {
            bs[i / 2] as int % 16
        };
        assert(0 <= d < 16);
        assert(crate::bits::is_hex_digit(hex_lower_digit(d)));
    }
}

/// Relies on `rand::Rng::gen_range` over `rand::rngs::ThreadRng`: a value
/// drawn uniformly from the non-empty range `lo..hi`.
#[verifier::external_body]
fn random_in_range(lo: u16, hi: u16) -> (r: u16)
    requires
        lo < hi,
    ensures
        lo <= r < hi,
{
    rand::thread_rng().gen_range(lo..hi)
}

/// Relies on `rand`'s `Alphanumeric` distribution sampled through
/// `Rng::sample_iter`: `len` bytes, each an ASCII alphanumeric character.
#[verifier::external_body]
fn random_alphanumeric_bytes(len: usize) -> (r: Vec<u8>)
    ensures
        r@.len() == len,
{
    rand::thread_rng().sample_iter(&rand::distributions::Alphanumeric).take(len).collect()
}

/// Relies on `random_color::RandomColor::to_hex`: a color token formatted as
/// `#` followed by base-16 digits.
#[verifier::external_body]
fn random_hex_color() -> (r: String)
    ensures
        r@.len() >= 7,
        r@[0] == '#',
{
    random_color::RandomColor::new().to_hex()
}

/// Relies on `hex::encode`: two lowercase base-16 digits per input byte, in
/// byte order.
#[verifier::external_body]
fn hex_encode(bytes: &Vec<u8>) -> (r: String)
    ensures
        r@ == hex_lower(bytes@),
{
    hex::encode(bytes)
}

/// A fresh hash string for an identicon: `len` random alphanumeric bytes,
/// encoded as lowercase base-16. The result has `2 * len` characters and is
/// always a valid hash.
pub fn new_hash(len: usize) -> (r: String)
    requires
        len <= usize::MAX / 2,
    ensures
        r@.len() == 2 * len,
        valid_hash(r@),
        hash_bytes(r@).len() == len,
{
    let bytes = random_alphanumeric_bytes(len);
    let s = hex_encode(&bytes);
    proof {
        lemma_hex_lower_valid(bytes@);
    }
    s
}

/// Generates the identicon for the given options and returns the document
/// string. The hash must be valid, the dimensions positive, and the hash
/// long enough to feed the requested grid; `extract_bits` and `render` are
/// the checked entry points for anything else.
pub fn generate(options: IdenticonOptions) -> (r: String)
    requires
        valid_hash(options.hash@),
        options.size >= 1,
        options.width >= 1,
        8 * (options.hash@.len() / 2) >= bits_needed(options.size as int),
    ensures
        r@ == render_spec(
            extracted_bits(options.hash@),
            options.size as int,
            options.width as int,
            options.color@,
            Some((options.background.r as int, options.background.color@)),
        ),
{
    let IdenticonOptions { hash, color, width, size, background } = options;
    let bits = match extract_bits(hash.as_str()) {
        Ok(b) => b,
        Err(_) => {
            assert(false);
            Vec::new()
        },
    };
    match render(&bits, size, width, color.as_str(), Some(&background)) {
        Ok(doc) => doc,
        Err(_) => {
            assert(false);
            String::new()
        },
    }
}

impl Default for IdenticonOptions {
    /// An opinionated quick identicon: side length drawn from `[4, 8)`,
    /// width 128, a random visually pleasant fill color, a 30-character
    /// random hash, and the default light gray background.
    fn default() -> (r: Self)
        ensures
            4 <= r.size < 8,
            r.width == 128,
            valid_hash(r.hash@),
            r.hash@.len() == 30,
            r.color@.len() >= 7,
            r.background.r == 0,
            r.background.color@ == "rgb(240, 240, 240)"@,
    {
        let color = random_hex_color();
        let hash = new_hash(15);
        let size = random_in_range(4, 8);
        IdenticonOptions { size, color, width: 128, hash, background: Background::default() }
    }
}

} // verus!

