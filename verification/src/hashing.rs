//! The hash of a file's bytes, and the run that hashes the files of a cleanup.

use sha2::Digest;
use vstd::prelude::*;

use crate::candidates::{candidate_of, cleanup_candidate_from_media, MediaItem};
use crate::exact::{split_by_cached_hash, with_file, HashGroups};
use crate::paths::texts_view;
use crate::text;
use crate::visual::{cache_update_for_hash, hash_update, updates_view, CleanupCacheUpdate};

verus! {

/// The SHA-256 digest of a run of bytes.
pub uninterp spec fn sha256_digest(bytes: Seq<u8>) -> Seq<u8>;

/// `sha2::Sha256::digest` on a whole run of bytes: the digest is a function of the bytes and is
/// 32 bytes long. How it is computed is not stated.
#[verifier::external_body]
fn sha256(bytes: &[u8]) -> (digest: Vec<u8>)
    ensures
        digest@ == sha256_digest(bytes@),
        digest@.len() == 32,
{
    sha2::Sha256::digest(bytes).to_vec()
}

/// The lowercase hexadecimal digit of a value below sixteen.
pub open spec fn hex_digit(n: nat) -> char
    recommends
        n < 16,
{
    if n < 10 {
        text::digit(n)
    } else {
        ('a' as u32 + (n - 10) as u32) as char
    }
}

/// Bytes in lowercase hexadecimal, two digits each.
pub open spec fn hex_text(bytes: Seq<u8>) -> Seq<char>
    decreases bytes.len(),
{
    if bytes.len() == 0 {
        Seq::empty()
    } else {
        hex_text(bytes.drop_last()).push(hex_digit(bytes.last() as nat / 16)).push(
            hex_digit(bytes.last() as nat % 16),
        )
    }
}

fn hex_char(n: u8) -> (c: char)
    requires
        n < 16,
    ensures
        c == hex_digit(n as nat),
{
    if n < 10 {
        (n + 48u8) as char
    } else {
        (n + 87u8) as char
    }
}

/// See [`hex_text`].
pub fn to_hex(bytes: &Vec<u8>) -> (r: String)
    ensures
        r@ == hex_text(bytes@),
{
    let mut out = String::new();
    let mut i: usize = 0;
    assert(bytes@.take(0) =~= Seq::empty());
    while i < bytes.len()
        invariant
            i <= bytes.len(),
            out@ == hex_text(bytes@.take(i as int)),
        decreases bytes.len() - i,
    {
        let b: u8 = bytes[i];
        out.push(hex_char(b / 16));
        out.push(hex_char(b % 16));
        i = i + 1;
        assert(bytes@.take(i as int).drop_last() =~= bytes@.take(i - 1));
    }
    assert(bytes@.take(i as int) =~= bytes@);
    out
}

proof fn lemma_hex_digit_injective(a: nat, b: nat)
    requires
        a < 16,
        b < 16,
        hex_digit(a) == hex_digit(b),
    ensures
        a == b,
{
    assert(hex_digit(a) as u32 == hex_digit(b) as u32);
}

/// Different bytes have different texts in hexadecimal, so a file's hash text tells its digest.
pub proof fn hex_text_tells_bytes(a: Seq<u8>, b: Seq<u8>)
    requires
        hex_text(a) == hex_text(b),
    ensures
        a == b,
    decreases a.len(),
{
    lemma_hex_len(a);
    lemma_hex_len(b);
    if a.len() > 0 {
        let x = hex_text(a);
        let y = hex_text(b);
        assert(x.last() == hex_digit(a.last() as nat % 16));
        assert(y.last() == hex_digit(b.last() as nat % 16));
        lemma_hex_digit_injective(a.last() as nat % 16, b.last() as nat % 16);
        assert(x.drop_last().last() == hex_digit(a.last() as nat / 16));
        assert(y.drop_last().last() == hex_digit(b.last() as nat / 16));
        lemma_hex_digit_injective(a.last() as nat / 16, b.last() as nat / 16);
        assert(x.drop_last().drop_last() =~= hex_text(a.drop_last()));
        assert(y.drop_last().drop_last() =~= hex_text(b.drop_last()));
        hex_text_tells_bytes(a.drop_last(), b.drop_last());
        assert(a =~= a.drop_last().push(a.last()));
        assert(b =~= b.drop_last().push(b.last()));
    } else {
        assert(a =~= b);
    }
}

proof fn lemma_hex_len(a: Seq<u8>)
    ensures
        hex_text(a).len() == 2 * a.len(),
    decreases a.len(),
{
    if a.len() > 0 {
        lemma_hex_len(a.drop_last());
    }
}

/// The hash of a file by what reading it gave: the SHA-256 digest of its bytes in hexadecimal,
/// or the path with the message of the error.
pub fn file_sha256(path: &str, read: Result<Vec<u8>, String>) -> (hash: Result<String, String>)
    ensures
        match (read, hash) {
            (Ok(bytes), Ok(h)) => h@ == hex_text(sha256_digest(bytes@)) && h@.len() == 64,
            (Err(e), Err(message)) => message@ == path@ + ": "@ + e@,
            _ => false,
        },
{
    match read {
        Ok(bytes) => {
            let digest = sha256(bytes.as_slice());
            proof {
                lemma_hex_len(digest@);
            }
            Ok(to_hex(&digest))
        },
        Err(e) => Err(text::concat3(path, ": ", e.as_str())),
    }
}

/// The run that hashes the files of a cleanup: the files by hash, the changes to the cache, and
/// the messages of the files that could not be read.
pub struct HashRun {
    pub groups: HashGroups,
    pub updates: Vec<CleanupCacheUpdate>,
    pub errors: Vec<String>,
    /// How many hashes came from the cache.
    pub cached: usize,
    /// How many files were hashed, or could not be.
    pub done: usize,
}

impl HashRun {
    /// Whether the run's groups are sound and its counts leave room for `more` files.
    pub open spec fn wf(self, more: int) -> bool {
        self.groups.wf() && self.cached + self.done + more <= usize::MAX
    }

    /// Starts a run: the files whose hash the cache holds are grouped. Also gives the positions
    /// of the files that remain.
    pub fn start(
        items: &Vec<MediaItem>,
        cache: &crate::collections::TextMap<crate::exact::CleanupFileCache>,
    ) -> (r: (HashRun, Vec<usize>))
        ensures
            r.0.wf(r.1.len() as int),
            r.0.groups@ == crate::exact::cached_groups(cache@, items@, items@.len()),
            r.1@ == crate::exact::uncached_positions(cache@, items@, items@.len()),
            r.0.cached == items.len() - r.1.len(),
            r.0.done == 0,
            r.0.updates@.len() == 0,
            r.0.errors@.len() == 0,
    {
        let (groups, pending) = split_by_cached_hash(items, cache);
        let cached: usize = items.len() - pending.len();
        (
            HashRun { groups, updates: Vec::new(), errors: Vec::new(), cached, done: 0 },
            pending,
        )
    }

    /// Takes the hash of a file, or the message that it has none. Gives the number of files
    /// dealt with where progress is to be shown: at the first file and at every
    /// twenty-fifth after it.
    pub fn note(&mut self, item: &MediaItem, hash: Result<String, String>) -> (shown: Option<usize>)
        requires
            old(self).wf(1),
        ensures
            final(self).groups.wf(),
            final(self).cached == old(self).cached,
            final(self).done == old(self).done + 1,
            match hash {
                Ok(h) => {
                    &&& final(self).groups@ == with_file(
                        old(self).groups@,
                        h@,
                        candidate_of(*item),
                    )
                    &&& updates_view(final(self).updates@) == updates_view(
                        old(self).updates@,
                    ).push(hash_update(candidate_of(*item), h@))
                    &&& final(self).errors == old(self).errors
                },
                Err(message) => {
                    &&& final(self).groups@ == old(self).groups@
                    &&& final(self).updates == old(self).updates
                    &&& texts_view(final(self).errors@) == texts_view(old(self).errors@).push(
                        message@,
                    )
                },
            },
            shown == if old(self).done % 25 == 0 {
                Some((old(self).cached + old(self).done + 1) as usize)
            } else {
                None
            },
    {
        match hash {
            Ok(h) => {
                let candidate = cleanup_candidate_from_media(item);
                let update = cache_update_for_hash(&candidate, &h);
                let ghost before = updates_view(self.updates@);
                let ghost added = update@;
                self.updates.push(update);
                assert(updates_view(self.updates@) =~= before.push(added));
                self.groups.insert(h, candidate);
            },
            Err(message) => {
                let ghost before = texts_view(self.errors@);
                let ghost added = message@;
                self.errors.push(message);
                assert(texts_view(self.errors@) =~= before.push(added));
            },
        }
        let at: usize = self.done;
        self.done = at + 1;
        if at % 25 == 0 {
            Some(self.cached + at + 1)
        } else {
            None
        }
    }
}

/// Bytes in hexadecimal go byte by byte: two small digits for each, the high one first.
pub proof fn hex_text_goes_byte_by_byte(bytes: Seq<u8>, i: int)
    requires
        0 <= i < bytes.len(),
    ensures
        hex_text(bytes).len() == 2 * bytes.len(),
        hex_text(bytes)[2 * i] == "0123456789abcdef"@[bytes[i] as int / 16],
        hex_text(bytes)[2 * i + 1] == "0123456789abcdef"@[bytes[i] as int % 16],
    decreases bytes.len(),
{
    lemma_hex_len(bytes);
    let rest = bytes.drop_last();
    lemma_hex_len(rest);
    let b = bytes.last() as nat;
    lemma_hex_digits(b / 16);
    lemma_hex_digits(b % 16);
    if i < rest.len() {
        hex_text_goes_byte_by_byte(rest, i);
        assert(rest[i] == bytes[i]);
        assert(hex_text(bytes)[2 * i] == hex_text(rest)[2 * i]);
        assert(hex_text(bytes)[2 * i + 1] == hex_text(rest)[2 * i + 1]);
    }
}

proof fn lemma_hex_digits(n: nat)
    requires
        n < 16,
    ensures
        hex_digit(n) == "0123456789abcdef"@[n as int],
{
    reveal_strlit("0123456789abcdef");
}

} // verus!
