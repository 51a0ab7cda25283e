//! Which file holds a track.
//!
//! The files of a store lie two directories deep under its folder. The
//! directories of a track are named by the MD5 digest of its identifier,
//! so that no index is needed to find a track and no directory grows
//! large.

use crate::text::{hex_digit, hex_digits};
use vstd::prelude::*;
use vstd::string::StringExecFns;
use vstd::utf8::encode_utf8;

verus! {

/// The hexadecimal digits of a track's digest that name one directory.
pub const SUBKEY_LENGTH: usize = 3;

/// The directories between the store's folder and a track's file.
pub const NESTING_LEVEL: usize = 2;

/// The MD5 digest of `data`, as RFC 1321 defines it: sixteen bytes.
pub uninterp spec fn md5_digest(data: Seq<u8>) -> Seq<u8>;

/// Calls `md5::compute` and takes the sixteen bytes out of the `Digest` it
/// returns: the MD5 digest of `data`.
#[verifier::external_body]
fn digest_of(data: &[u8]) -> (digest: [u8; 16])
    ensures
        digest@ == md5_digest(data@),
{
    md5::compute(data).0
}

/// Digit `i` of `bytes` written in hexadecimal, two digits a byte, the
/// high one first.
pub open spec fn hex_at(bytes: Seq<u8>, i: int) -> char {
    if i % 2 == 0 {
        hex_digits()[bytes[i / 2] as int / 16]
    } else {
        hex_digits()[bytes[i / 2] as int % 16]
    }
}

/// `bytes` written in hexadecimal.
pub open spec fn hex(bytes: Seq<u8>) -> Seq<char> {
    Seq::new(2 * bytes.len(), |i: int| hex_at(bytes, i))
}

/// `folder` and under it the first `levels` directories that `digits`
/// names, three digits each.
pub open spec fn sharded(folder: Seq<char>, digits: Seq<char>, levels: nat) -> Seq<char>
    decreases levels,
{
    if levels == 0 {
        folder
    } else {
        sharded(folder, digits, (levels - 1) as nat) + seq!['/'] + digits.subrange(
            (levels - 1) * SUBKEY_LENGTH,
            levels * SUBKEY_LENGTH,
        )
    }
}

/// The directory of the track whose identifier has the digest `digest`.
pub open spec fn directory_of(folder: Seq<char>, digest: Seq<u8>) -> Seq<char> {
    sharded(folder, hex(digest), NESTING_LEVEL as nat)
}

/// The directory of the track `track_id` in the store at `folder`.
pub open spec fn track_directory(folder: Seq<char>, track_id: Seq<char>) -> Seq<char> {
    directory_of(folder, md5_digest(encode_utf8(track_id)))
}

/// The path of the file of the track `track_id` in the store at `folder`.
pub open spec fn track_path(folder: Seq<char>, track_id: Seq<char>) -> Seq<char> {
    track_directory(folder, track_id) + seq!['/'] + track_id + ".bin"@
}

/// The directory of a track in the store at `folder`, given the digest of
/// the track's identifier.
pub fn directory_for(folder: &str, digest: &[u8; 16]) -> (dir: String)
    ensures
        dir@ == directory_of(folder@, digest@),
{
    let mut dir = String::from_str(folder);
    let ghost digits = hex(digest@);
    let mut level: usize = 0;
    while level < NESTING_LEVEL
        invariant
            level <= NESTING_LEVEL,
            digits == hex(digest@),
            digest@.len() == 16,
            dir@ == sharded(folder@, digits, level as nat),
        decreases NESTING_LEVEL - level,
    {
        let ghost before = dir@;
        dir.append("/");
        proof {
            reveal_strlit("/");
        }
        let mut j: usize = 0;
        while j < SUBKEY_LENGTH
            invariant
                j <= SUBKEY_LENGTH,
                level < NESTING_LEVEL,
                digits == hex(digest@),
                digest@.len() == 16,
                dir@ == before + seq!['/'] + digits.subrange(
                    level * SUBKEY_LENGTH,
                    level * SUBKEY_LENGTH + j,
                ),
            decreases SUBKEY_LENGTH - j,
        {
            let i: usize = level * SUBKEY_LENGTH + j;
            let byte: u8 = digest[i / 2];
            let nibble: u8 = if i % 2 == 0 {
                byte / 16
            } else {
                byte % 16
            };
            dir.append(hex_digit(nibble));
            assert(digits[i as int] == hex_digits()[nibble as int]);
            assert(digits.subrange(level * SUBKEY_LENGTH, level * SUBKEY_LENGTH + j + 1)
                =~= digits.subrange(level * SUBKEY_LENGTH, level * SUBKEY_LENGTH + j).push(
                digits[i as int],
            ));
            assert(dir@ =~= before + seq!['/'] + digits.subrange(
                level * SUBKEY_LENGTH,
                level * SUBKEY_LENGTH + j + 1,
            ));
            j = j + 1;
        }
        level = level + 1;
    }
    dir
}

/// The directory of the track `track_id` in the store at `folder`.
pub fn directory_in(folder: &str, track_id: &str) -> (dir: String)
    ensures
        dir@ == track_directory(folder@, track_id@),
{
    let digest = digest_of(track_id.as_bytes());
    directory_for(folder, &digest)
}

/// Two stores at the same folder keep a track of the same identifier at
/// the same path: the path is a function of the folder and the identifier
/// and nothing else.
pub proof fn lemma_path_is_determined(
    folder_a: Seq<char>,
    id_a: Seq<char>,
    folder_b: Seq<char>,
    id_b: Seq<char>,
)
    requires
        folder_a == folder_b,
        id_a == id_b,
    ensures
        track_path(folder_a, id_a) == track_path(folder_b, id_b),
        track_directory(folder_a, id_a) == track_directory(folder_b, id_b),
{
}

/// The shape of a track's directory, whatever the digest: the folder, a
/// stroke, the first three digits of the digest, a stroke, and the next
/// three.
pub proof fn lemma_directory_shape(folder: Seq<char>, digest: Seq<u8>)
    requires
        digest.len() == 16,
    ensures
        directory_of(folder, digest) == folder + seq!['/'] + seq![
            hex_at(digest, 0),
            hex_at(digest, 1),
            hex_at(digest, 2),
        ] + seq!['/'] + seq![hex_at(digest, 3), hex_at(digest, 4), hex_at(digest, 5)],
        directory_of(folder, digest).len() == folder.len() + 8,
{
    let h = hex(digest);
    reveal_with_fuel(sharded, 3);
    assert(h.subrange(0, 3) =~= seq![hex_at(digest, 0), hex_at(digest, 1), hex_at(digest, 2)]);
    assert(h.subrange(3, 6) =~= seq![hex_at(digest, 3), hex_at(digest, 4), hex_at(digest, 5)]);
}

} // verus!
