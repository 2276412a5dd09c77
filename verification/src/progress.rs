//! What a cleanup shows of its progress, and the messages of steps that failed.

use vstd::prelude::*;

use crate::text;

verus! {

/// How many images one fingerprint request names.
pub const VISUAL_FINGERPRINT_BATCH: usize = 256;

/// A count put into a sentence.
pub open spec fn with_count(before: Seq<char>, n: nat, after: Seq<char>) -> Seq<char> {
    before + text::decimal(n) + after
}

fn put_count(before: &str, n: usize, after: &str) -> (t: String)
    ensures
        t@ == with_count(before@, n as nat, after@),
{
    let number = text::to_decimal(n as u128);
    text::concat3(before, number.as_str(), after)
}

/// The phase in which files are hashed.
pub fn hashing_phase(workers: usize) -> (phase: String)
    ensures
        phase@ == with_count(
            "Hashing exact image duplicates ("@,
            workers as nat,
            " workers)"@,
        ),
{
    put_count("Hashing exact image duplicates (", workers, " workers)")
}

/// The phase that tells how many hashes were known.
pub fn cached_hashes_phase(cached: usize) -> (phase: String)
    ensures
        phase@ == with_count("Using cached exact hashes ("@, cached as nat, " cached)"@),
{
    put_count("Using cached exact hashes (", cached, " cached)")
}

/// The phase in which images are fingerprinted.
pub fn fingerprint_phase(workers: usize) -> (phase: String)
    ensures
        phase@ == with_count(
            "Fingerprinting visual duplicates ("@,
            workers as nat,
            " workers)"@,
        ),
{
    put_count("Fingerprinting visual duplicates (", workers, " workers)")
}

/// How many images are hashed in the end: the known ones and the others, and never more than there
/// are.
pub fn hashed_images(images: usize, cached: usize, pending: usize) -> (n: usize)
    requires
        cached + pending <= usize::MAX,
    ensures
        n == if cached + pending < images {
            cached + pending
        } else {
            images as int
        },
{
    if cached + pending < images {
        cached + pending
    } else {
        images
    }
}

/// How many images are fingerprinted after `done` more batches: the known ones and those of the
/// batches, of which the last may be short.
pub open spec fn fingerprinted(known: int, done: int, pending: int) -> int {
    known + (if done * 256 < pending {
        done * 256
    } else {
        pending
    })
}

/// See [`fingerprinted`].
pub fn fingerprinted_images(known: usize, done: usize, pending: usize) -> (n: usize)
    requires
        known + pending <= usize::MAX,
        done <= usize::MAX / 256,
    ensures
        n == fingerprinted(known as int, done as int, pending as int),
{
    let images: usize = done * VISUAL_FINGERPRINT_BATCH;
    if images < pending {
        known + images
    } else {
        known + pending
    }
}

/// How many workers fingerprint: no more than there are batches, and at least one.
pub fn fingerprint_workers(threads: usize, batches: usize) -> (n: usize)
    ensures
        n == ({
            let b = if batches < 1 {
                1
            } else {
                batches as int
            };
            if threads < b {
                threads as int
            } else {
                b
            }
        }),
{
    let most: usize = if batches < 1 {
        1
    } else {
        batches
    };
    if threads < most {
        threads
    } else {
        most
    }
}

/// Whether the inspection of a folder at a position is shown: every thousandth is, from the first
/// on.
pub fn shows_inspection(position: usize) -> (shown: bool)
    ensures
        shown == (position % 1000 == 0),
{
    position % 1000 == 0
}

/// The message for a cleanup root that is no folder.
pub fn bad_root_message(root: &str) -> (message: String)
    ensures
        message@ == "cleanup root is not a directory: "@ + root@,
{
    text::concat2("cleanup root is not a directory: ", root)
}

/// The greeting of the app.
pub fn greet(name: &str) -> (t: String)
    ensures
        t@ == "Welcome to "@ + name@ + "."@,
{
    text::concat3("Welcome to ", name, ".")
}

/// What is done of the fingerprints is what was known and the batches that came back, and never more
/// than all; a batch more shows more, until all are done.
pub proof fn fingerprinted_images_grow_to_all(known: int, done: int, pending: int)
    requires
        0 <= known,
        0 <= done,
        0 <= pending,
    ensures
        known <= fingerprinted(known, done, pending) <= known + pending,
        fingerprinted(known, 0, pending) == known,
        VISUAL_FINGERPRINT_BATCH * done >= pending ==> fingerprinted(known, done, pending) == known
            + pending,
        VISUAL_FINGERPRINT_BATCH * (done + 1) <= pending ==> fingerprinted(known, done + 1, pending)
            == fingerprinted(known, done, pending) + VISUAL_FINGERPRINT_BATCH,
{
}

} // verus!
