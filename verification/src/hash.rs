//! The hash of one image: its fingerprint together with the path it came from.

use crate::bits::{self, Bits};
use crate::decode::{decoded, load_luma, FailureKind};
use crate::digest::{
    digest, digest_len, digest_prefix, hex_digit, lemma_digest_injective,
    lemma_digest_len_of_square, nibble, partial_group,
};
use crate::grid::{fingerprint_of, valid_side, GrayGrid};
use vstd::prelude::*;
use vstd::string::StringExecFns;

verus! {

/// The fingerprint of an image and the path of the file it was read from.
#[derive(Debug)]
pub struct ImageHash<P> {
    pub hash: Bits,
    pub path: P,
}

impl<P> ImageHash<P> {
    /// Pairs a fingerprint with the path of its image.
    pub fn new(hash: Bits, path: P) -> (image: Self)
        ensures
            image.hash == hash,
            image.path == path,
    {
        Self { hash, path }
    }

    /// The digest of the fingerprint: one lowercase hexadecimal character
    /// for every four bits, the first bit of a group being its most
    /// significant, a short last group padded with zeros on the right.
    pub fn hexdigest(&self) -> (s: String)
        ensures
            s@ == digest(self.hash@),
            s@.len() == digest_len(self.hash@.len()),
    {
        let ghost all = self.hash@;
        let total = bits::len(&self.hash);
        let mut s = String::new();
        let mut byte: u8 = 0;
        let mut bit_count: u8 = 0;
        let mut i: usize = 0;

        while i < total
            invariant
                all == self.hash@,
                i <= total == all.len(),
                bit_count == i % 4,
                byte == partial_group(all, i - bit_count, bit_count as int),
                s@ == digest_prefix(all, i as int / 4),
            decreases total - i,
        {
            let bit: u8 = if bits::get(&self.hash, i) { 1 } else { 0 };
            let ghost before = byte;
            assert(before < 8);
            byte = (byte << 1) | bit;
            assert(byte == 2 * before + bit) by (bit_vector)
                requires
                    byte == (before << 1) | bit,
                    before < 8,
                    bit <= 1,
            ;
            bit_count += 1;
            if bit_count == 4 {
                assert(byte == nibble(all, i as int / 4));
                s.append(hex_digit(byte));
                assert(s@ =~= digest_prefix(all, i as int / 4 + 1));
                byte = 0;
                bit_count = 0;
            }
            i += 1;
        }

        // Handle leftover bits
        if bit_count != 0 {
            let ghost before = byte;
            let shift: u8 = 4 - bit_count;
            byte <<= shift;
            assert(byte == nibble(all, i as int / 4)) by {
                assert(byte == before * if shift == 3 {
                    8int
                } else if shift == 2 {
                    4int
                } else {
                    2int
                }) by (bit_vector)
                    requires
                        byte == before << shift,
                        before < 8,
                        1 <= shift <= 3,
                ;
            }
            s.append(hex_digit(byte));
            assert(s@ =~= digest(all));
        } else {
            assert(s@ =~= digest(all));
        }

        s
    }
}

/// Why a file gives no hash.
#[derive(Debug, Clone, PartialEq, Eq)]
pub enum Skip {
    /// The file claims a known image format, but its content is malformed.
    /// This is worth a diagnostic; the text says what the decoder found.
    DecodeError(String),
    /// The file is no image that can be read here. Among the files of a
    /// directory that is expected, and passed over in silence.
    Unsupported,
}

impl Skip {
    /// The text to report for this skip, if it is to be reported at all:
    /// the decoder's finding for malformed content, nothing otherwise.
    pub fn diagnostic(&self) -> (text: Option<&String>)
        ensures
            match *self {
                Skip::DecodeError(detail) => text == Some(&detail),
                Skip::Unsupported => text is None,
            },
    {
        match self {
            Skip::DecodeError(detail) => Some(detail),
            Skip::Unsupported => None,
        }
    }
}

/// Whether a failure of this kind means that the content of a known format
/// is malformed. That is so where the decoder rejects the content, and where
/// the content ends before the decoder has read what it needs: the bytes are
/// in memory, so a failure to read them is a file cut short.
pub open spec fn is_malformed(kind: FailureKind) -> bool {
    kind == FailureKind::Decoding || kind == FailureKind::Io
}

/// The skip that a failure of the given kind leads to: malformed content is
/// a decode error and keeps the decoder's text, every other failure counts
/// as a file that is no image.
pub fn skip_for(kind: FailureKind, detail: String) -> (skip: Skip)
    ensures
        is_malformed(kind) ==> skip == Skip::DecodeError(detail),
        !is_malformed(kind) ==> skip == Skip::Unsupported,
{
    match kind {
        FailureKind::Decoding | FailureKind::Io => Skip::DecodeError(detail),
        _ => Skip::Unsupported,
    }
}

/// Whether `side` is a side length that a hash can be made with.
pub fn side_is_valid(side: u32) -> (valid: bool)
    ensures
        valid == valid_side(side),
{
    match side.checked_mul(side) {
        Some(area) => side >= 1 && area as u64 <= (usize::MAX / 8) as u64,
        None => false,
    }
}

/// What `dhash_image` owes for the given file. Where the bytes can be
/// decoded: the hash of the grey square, with the path it was given. Where
/// they cannot: a decode error if the content is malformed, else the silent
/// skip.
pub open spec fn hashed_as(
    path: String,
    bytes: Seq<u8>,
    side: u32,
    outcome: Result<ImageHash<String>, Skip>,
) -> bool {
    match decoded(path@, bytes, side) {
        Ok(pixels) => {
            &&& outcome matches Ok(image)
            &&& image.path == path
            &&& image.hash@ == fingerprint_of(side as int, pixels)
            &&& image.hash@.len() == side * side
        },
        Err(kind) => {
            &&& outcome matches Err(skip)
            &&& is_malformed(kind) ==> skip is DecodeError
            &&& !is_malformed(kind) ==> skip == Skip::Unsupported
        },
    }
}

/// Hashes the image that `bytes` encode, read from the file at `path`.
///
/// The image is decoded, turned grey, and resampled to `side_size` by
/// `side_size` pixels; its hash is the difference hash of that square. Where
/// the bytes cannot be decoded there is no hash, and the skip says whether
/// that is worth a diagnostic.
pub fn dhash_image(path: String, bytes: &[u8], side_size: u32) -> (outcome: Result<
    ImageHash<String>,
    Skip,
>)
    requires
        valid_side(side_size),
    ensures
        hashed_as(path, bytes@, side_size, outcome),
{
    match load_luma(path.as_str(), bytes, side_size) {
        Ok(pixels) => {
            let grid = GrayGrid::from_square(side_size, pixels);
            Ok(ImageHash::new(grid.fingerprint(), path))
        },
        Err(failure) => Err(skip_for(failure.kind, failure.detail)),
    }
}

/// Hashing is a function of the file and the side: two hashes of the same
/// bytes under the same path with the same side agree on whether there is a
/// hash, on its bits, and so on its digest.
pub proof fn lemma_dhash_deterministic(
    path: String,
    bytes: Seq<u8>,
    side: u32,
    first: Result<ImageHash<String>, Skip>,
    second: Result<ImageHash<String>, Skip>,
)
    requires
        hashed_as(path, bytes, side, first),
        hashed_as(path, bytes, side, second),
    ensures
        first is Ok <==> second is Ok,
        first is Ok ==> first->Ok_0.hash@ == second->Ok_0.hash@,
        first is Ok ==> digest(first->Ok_0.hash@) == digest(second->Ok_0.hash@),
        first is Err ==> (first->Err_0 is DecodeError <==> second->Err_0 is DecodeError),
{
}

/// A file that is no image, or one in a format that cannot be read, gives
/// no hash and nothing to report; malformed content of a known format gives
/// no hash and a text to report.
pub proof fn lemma_skips(
    path: String,
    bytes: Seq<u8>,
    side: u32,
    outcome: Result<ImageHash<String>, Skip>,
)
    requires
        hashed_as(path, bytes, side, outcome),
    ensures
        decoded(path@, bytes, side) is Err <==> outcome is Err,
        decoded(path@, bytes, side) matches Err(kind) ==> (is_malformed(kind) <==> outcome->Err_0
            is DecodeError),
        decoded(path@, bytes, side) == Err::<Seq<u8>, FailureKind>(FailureKind::Unsupported)
            ==> outcome == Err::<ImageHash<String>, Skip>(Skip::Unsupported),
{
}

/// Two images hashed with the same side have the same digest if and only if
/// their fingerprints are equal bit for bit.
pub proof fn lemma_same_digest_same_fingerprint<P>(side: u32, a: ImageHash<P>, b: ImageHash<P>)
    requires
        a.hash@.len() == side * side,
        b.hash@.len() == side * side,
    ensures
        digest(a.hash@) == digest(b.hash@) <==> a.hash@ == b.hash@,
{
    lemma_digest_injective(a.hash@, b.hash@);
}

/// The digest of an image hashed with side `side` has `ceil(side * side / 4)`
/// characters.
pub proof fn lemma_digest_len_of_hash<P>(side: u32, image: ImageHash<P>)
    requires
        image.hash@.len() == side * side,
    ensures
        digest(image.hash@).len() == (side * side + 3) / 4,
        side == 8 ==> digest(image.hash@).len() == 16,
        side == 16 ==> digest(image.hash@).len() == 64,
{
    lemma_digest_len_of_square(image.hash@, side as nat);
}

} // verus!
