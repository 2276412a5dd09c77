//! How many workers each phase uses and how large its batches are.

use vstd::prelude::*;

use crate::paths::opt_str_view;
use crate::text;

verus! {

/// `v` brought into `low..=high`.
pub open spec fn clamped(v: int, low: int, high: int) -> int {
    if v < low {
        low
    } else if v > high {
        high
    } else {
        v
    }
}

/// Whatever a setting asks for, a count keeps to its bounds, and one within them is kept.
pub proof fn counts_keep_to_their_bounds(v: int, low: int, high: int)
    requires
        low <= high,
    ensures
        low <= clamped(v, low, high) <= high,
        low <= v <= high ==> clamped(v, low, high) == v,
{
}

/// The number that a setting gives, where it is a number.
pub open spec fn setting(value: Option<Seq<char>>) -> Option<usize> {
    match value {
        Some(text) => text::parsed_usize(text),
        None => None,
    }
}

/// The number that a setting gives, and `otherwise` where it gives none.
pub open spec fn setting_or(value: Option<Seq<char>>, otherwise: int) -> int {
    match setting(value) {
        Some(n) => n as int,
        None => otherwise,
    }
}

/// `a * b`, at most `usize::MAX`.
pub open spec fn capped_product(a: int, b: int) -> int {
    if a * b > usize::MAX {
        usize::MAX as int
    } else {
        a * b
    }
}

/// The larger of two numbers.
pub open spec fn larger(a: int, b: int) -> int {
    if a < b {
        b
    } else {
        a
    }
}

fn clamp(v: usize, low: usize, high: usize) -> (r: usize)
    requires
        low <= high,
    ensures
        r == clamped(v as int, low as int, high as int),
{
    if v < low {
        low
    } else if v > high {
        high
    } else {
        v
    }
}

fn read_setting(value: Option<&str>) -> (n: Option<usize>)
    ensures
        n == setting(opt_str_view(value)),
{
    match value {
        Some(text) => text::parse_usize(text),
        None => None,
    }
}

/// Workers that walk folders: the setting, or four for each available thread, in `8..=128`.
pub fn discovery_thread_count(value: Option<&str>, available: usize) -> (n: usize)
    ensures
        n == clamped(
            setting_or(opt_str_view(value), capped_product(available as int, 4)),
            8,
            128,
        ),
        keeps_setting(opt_str_view(value), 8, 128, n as int),
{
    let wanted: usize = match read_setting(value) {
        Some(n) => n,
        None => match available.checked_mul(4) {
            Some(n) => n,
            None => usize::MAX,
        },
    };
    clamp(wanted, 8, 128)
}

/// The count that [`indexing_thread_count`] gives.
pub open spec fn indexing_threads(value: Option<Seq<char>>, available: int) -> int {
    clamped(setting_or(value, larger(available / 2, 1)), 1, 4)
}

/// Workers that read metadata: the setting, or half the available threads, in `1..=4`.
pub fn indexing_thread_count(value: Option<&str>, available: usize) -> (n: usize)
    ensures
        n == indexing_threads(opt_str_view(value), available as int),
        keeps_setting(opt_str_view(value), 1, 4, n as int),
{
    let wanted: usize = match read_setting(value) {
        Some(n) => n,
        None => if available / 2 < 1 {
            1
        } else {
            available / 2
        },
    };
    clamp(wanted, 1, 4)
}

/// Whether a provider is the local one, in any case.
pub open spec fn is_fastembed(provider: Seq<char>) -> bool {
    text::lower(provider) == text::lower("fastembed"@)
}

/// Workers of an embedding run: for the local provider its setting, or four, in `1..=16`; for
/// the others as many as index.
pub fn embedding_thread_count(
    provider: &str,
    value: Option<&str>,
    indexing_value: Option<&str>,
    available: usize,
) -> (n: usize)
    ensures
        n == if is_fastembed(provider@) {
            clamped(setting_or(opt_str_view(value), 4), 1, 16)
        } else {
            indexing_threads(opt_str_view(indexing_value), available as int)
        },
        is_fastembed(provider@) ==> keeps_setting(opt_str_view(value), 1, 16, n as int),
{
    if text::eq_ignore_ascii_case(provider, "fastembed") {
        let wanted: usize = match read_setting(value) {
            Some(n) => n,
            None => 4,
        };
        clamp(wanted, 1, 16)
    } else {
        indexing_thread_count(indexing_value, available)
    }
}

/// Items in one batch of the embedding model: for the local provider its setting, or sixteen,
/// in `1..=256`; for the others sixteen.
pub fn embedding_batch_size(provider: &str, value: Option<&str>) -> (n: usize)
    ensures
        n == if is_fastembed(provider@) {
            clamped(setting_or(opt_str_view(value), 16), 1, 256)
        } else {
            16
        },
        is_fastembed(provider@) ==> keeps_setting(opt_str_view(value), 1, 256, n as int),
{
    if text::eq_ignore_ascii_case(provider, "fastembed") {
        let wanted: usize = match read_setting(value) {
            Some(n) => n,
            None => 16,
        };
        clamp(wanted, 1, 256)
    } else {
        16
    }
}

/// Workers that find faces: the setting, or as many as index but two at least, in `1..=8`.
pub fn face_indexing_thread_count(
    value: Option<&str>,
    indexing_value: Option<&str>,
    available: usize,
) -> (n: usize)
    ensures
        n == clamped(
            setting_or(
                opt_str_view(value),
                larger(indexing_threads(opt_str_view(indexing_value), available as int), 2),
            ),
            1,
            8,
        ),
        keeps_setting(opt_str_view(value), 1, 8, n as int),
{
    let wanted: usize = match read_setting(value) {
        Some(n) => n,
        None => {
            let n: usize = indexing_thread_count(indexing_value, available);
            if n < 2 {
                2
            } else {
                n
            }
        },
    };
    clamp(wanted, 1, 8)
}

/// Workers that hash files: the setting, or two for each available thread but eight at least,
/// in `1..=32`.
pub fn cleanup_hash_thread_count(value: Option<&str>, available: usize) -> (n: usize)
    ensures
        n == clamped(
            setting_or(opt_str_view(value), larger(capped_product(available as int, 2), 8)),
            1,
            32,
        ),
        keeps_setting(opt_str_view(value), 1, 32, n as int),
{
    let wanted: usize = match read_setting(value) {
        Some(n) => n,
        None => {
            let doubled: usize = match available.checked_mul(2) {
                Some(n) => n,
                None => usize::MAX,
            };
            if doubled < 8 {
                8
            } else {
                doubled
            }
        },
    };
    clamp(wanted, 1, 32)
}

/// Workers that fingerprint images: the setting, or half the available threads but four at
/// least, in `1..=16`.
pub fn cleanup_visual_thread_count(value: Option<&str>, available: usize) -> (n: usize)
    ensures
        n == clamped(setting_or(opt_str_view(value), larger(available as int / 2, 4)), 1, 16),
        keeps_setting(opt_str_view(value), 1, 16, n as int),
{
    let wanted: usize = match read_setting(value) {
        Some(n) => n,
        None => if available / 2 < 4 {
            4
        } else {
            available / 2
        },
    };
    clamp(wanted, 1, 16)
}

/// A setting is taken where it can be read, and is then the only thing that counts; bounds are kept
/// whatever it is.
pub proof fn readable_setting_is_taken(value: Seq<char>, otherwise: int, available: int)
    requires
        0 <= available,
    ensures
        text::parsed_usize(value) matches Some(n) ==> setting_or(Some(value), otherwise) == n,
        text::parsed_usize(value) is None ==> setting_or(Some(value), otherwise) == otherwise,
        setting_or(None, otherwise) == otherwise,
        1 <= indexing_threads(Some(value), available) <= 4,
        1 <= indexing_threads(None, available) <= 4,
        text::parsed_usize(value) matches Some(n) ==> (1 <= n <= 4 ==> indexing_threads(
            Some(value),
            available,
        ) == n) && (n < 1 ==> indexing_threads(Some(value), available) == 1) && (n > 4
            ==> indexing_threads(Some(value), available) == 4),
        text::parsed_usize(value) is None ==> indexing_threads(Some(value), available)
            == indexing_threads(None, available),
        2 <= available <= 9 ==> 2 * indexing_threads(None, available) <= available < 2
            * indexing_threads(None, available) + 2,
        available < 2 ==> indexing_threads(None, available) == 1,
        available > 9 ==> indexing_threads(None, available) == 4,
{
}

/// The larger of two numbers is one of them and no smaller than either; a product is exact unless
/// it is beyond the range, and then it is the largest number there is.
pub proof fn larger_and_product(a: int, b: int)
    ensures
        larger(a, b) >= a && larger(a, b) >= b && (larger(a, b) == a || larger(a, b) == b),
        a * b <= usize::MAX ==> capped_product(a, b) == a * b,
        a * b > usize::MAX ==> capped_product(a, b) == usize::MAX,
{
}

/// The provider is told by its name in any case.
pub proof fn provider_is_told_in_any_case(provider: Seq<char>)
    ensures
        is_fastembed(provider) <==> text::lower(provider) == "fastembed"@,
{
    reveal_strlit("fastembed");
    assert(text::lower("fastembed"@) =~= "fastembed"@);
}

/// Whether a number keeps to its bounds and to the setting: a setting that can be read and is within
/// the bounds is the number, one below them gives the lower bound, and one above them the upper.
pub open spec fn keeps_setting(value: Option<Seq<char>>, low: int, high: int, n: int) -> bool {
    &&& low <= n <= high
    &&& value is Some && text::parsed_usize(value->0) is Some ==> {
        let asked = text::parsed_usize(value->0)->0;
        &&& low <= asked <= high ==> n == asked
        &&& asked < low ==> n == low
        &&& asked > high ==> n == high
    }
}

} // verus!
