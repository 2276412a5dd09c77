//! Copies of one picture, and which of them to keep.

use vstd::prelude::*;

use crate::keeping::{best_copy_is_chosen, keeps_the_best};
use crate::paths::opt_view;
use crate::text;

verus! {

/// A media item of the catalog, without its position.
pub struct MediaItem {
    pub id: i64,
    pub path: String,
    pub display_path: Option<String>,
    pub file_name: String,
    pub size_bytes: Option<i64>,
    pub created_at: Option<i64>,
    pub modified_at: Option<i64>,
    pub captured_at: Option<i64>,
}

/// One file of a group of duplicates.
pub struct CleanupCandidate {
    pub path: String,
    pub display_path: Option<String>,
    pub file_name: String,
    pub size_bytes: Option<i64>,
    pub created_at: Option<i64>,
    pub modified_at: Option<i64>,
    pub captured_at: Option<i64>,
    pub width: Option<i64>,
    pub height: Option<i64>,
}

/// What a [`CleanupCandidate`] stands for.
pub struct CandidateView {
    pub path: Seq<char>,
    pub display_path: Option<Seq<char>>,
    pub file_name: Seq<char>,
    pub size_bytes: Option<i64>,
    pub created_at: Option<i64>,
    pub modified_at: Option<i64>,
    pub captured_at: Option<i64>,
    pub width: Option<i64>,
    pub height: Option<i64>,
}

impl View for CleanupCandidate {
    type V = CandidateView;

    open spec fn view(&self) -> CandidateView {
        CandidateView {
            path: self.path@,
            display_path: opt_view(self.display_path),
            file_name: self.file_name@,
            size_bytes: self.size_bytes,
            created_at: self.created_at,
            modified_at: self.modified_at,
            captured_at: self.captured_at,
            width: self.width,
            height: self.height,
        }
    }
}

/// What a list of candidates stands for.
pub open spec fn candidates_view(s: Seq<CleanupCandidate>) -> Seq<CandidateView> {
    s.map_values(|c: CleanupCandidate| c@)
}

/// The value, or `otherwise` where there is none.
pub open spec fn value_or(v: Option<i64>, otherwise: i64) -> i64 {
    match v {
        Some(n) => n,
        None => otherwise,
    }
}

/// The value, or `otherwise` where there is none.
pub fn number_or(v: Option<i64>, otherwise: i64) -> (n: i64)
    ensures
        n == value_or(v, otherwise),
{
    match v {
        Some(n) => n,
        None => otherwise,
    }
}

/// The candidate that a media item makes; its size in pixels is not known yet.
pub open spec fn candidate_of(item: MediaItem) -> CandidateView {
    CandidateView {
        path: item.path@,
        display_path: opt_view(item.display_path),
        file_name: item.file_name@,
        size_bytes: item.size_bytes,
        created_at: item.created_at,
        modified_at: item.modified_at,
        captured_at: item.captured_at,
        width: None,
        height: None,
    }
}

/// A copy of an optional text.
pub fn clone_opt(s: &Option<String>) -> (r: Option<String>)
    ensures
        opt_view(r) == opt_view(*s),
{
    match s {
        Some(t) => Some(t.clone()),
        None => None,
    }
}

/// See [`candidate_of`].
pub fn cleanup_candidate_from_media(item: &MediaItem) -> (c: CleanupCandidate)
    ensures
        c@ == candidate_of(*item),
{
    CleanupCandidate {
        path: item.path.clone(),
        display_path: clone_opt(&item.display_path),
        file_name: item.file_name.clone(),
        size_bytes: item.size_bytes,
        created_at: item.created_at,
        modified_at: item.modified_at,
        captured_at: item.captured_at,
        width: None,
        height: None,
    }
}

/// The date of a candidate: when it was taken, else modified, else created; the latest date
/// there is where none is known.
pub open spec fn candidate_date(c: CandidateView) -> i64 {
    match c.captured_at {
        Some(t) => t,
        None => match c.modified_at {
            Some(t) => t,
            None => value_or(c.created_at, i64::MAX),
        },
    }
}

/// See [`candidate_date`].
pub fn cleanup_date(c: &CleanupCandidate) -> (t: i64)
    ensures
        t == candidate_date(c@),
{
    match c.captured_at {
        Some(t) => t,
        None => match c.modified_at {
            Some(t) => t,
            None => number_or(c.created_at, i64::MAX),
        },
    }
}

/// `n` brought into the range of `i64`.
pub open spec fn saturated(n: int) -> i64 {
    if n < i64::MIN {
        i64::MIN
    } else if n > i64::MAX {
        i64::MAX
    } else {
        n as i64
    }
}

/// The number of pixels of a candidate, within the range of `i64`; an unknown side counts as
/// zero.
pub open spec fn candidate_pixels(c: CandidateView) -> i64 {
    saturated(value_or(c.width, 0) * value_or(c.height, 0))
}

/// See [`candidate_pixels`].
pub fn cleanup_pixels(c: &CleanupCandidate) -> (n: i64)
    ensures
        n == candidate_pixels(c@),
{
    let w: i64 = number_or(c.width, 0);
    let h: i64 = number_or(c.height, 0);
    assert(-0x4000_0000_0000_0000_0000_0000_0000_0000 <= w * h
        <= 0x4000_0000_0000_0000_0000_0000_0000_0000) by (nonlinear_arith)
        requires
            -0x8000_0000_0000_0000 <= w <= 0x7fff_ffff_ffff_ffff,
            -0x8000_0000_0000_0000 <= h <= 0x7fff_ffff_ffff_ffff,
    ;
    let product: i128 = (w as i128) * (h as i128);
    if product < i64::MIN as i128 {
        i64::MIN
    } else if product > i64::MAX as i128 {
        i64::MAX
    } else {
        product as i64
    }
}

/// Whether `a` is the better copy to keep: the earlier one; of the same date the one with more
/// pixels; then the one with more bytes; then the one whose path comes first.
pub open spec fn better(a: CandidateView, b: CandidateView) -> bool {
    if candidate_date(a) != candidate_date(b) {
        candidate_date(a) < candidate_date(b)
    } else if candidate_pixels(a) != candidate_pixels(b) {
        candidate_pixels(a) > candidate_pixels(b)
    } else if value_or(a.size_bytes, 0) != value_or(b.size_bytes, 0) {
        value_or(a.size_bytes, 0) > value_or(b.size_bytes, 0)
    } else {
        text::text_less(a.path, b.path)
    }
}

fn is_better(a: &CleanupCandidate, b: &CleanupCandidate) -> (yes: bool)
    ensures
        yes == better(a@, b@),
{
    let (da, db) = (cleanup_date(a), cleanup_date(b));
    if da != db {
        return da < db;
    }
    let (pa, pb) = (cleanup_pixels(a), cleanup_pixels(b));
    if pa != pb {
        return pa > pb;
    }
    let (sa, sb) = (number_or(a.size_bytes, 0), number_or(b.size_bytes, 0));
    if sa != sb {
        return sa > sb;
    }
    text::is_text_less(a.path.as_str(), b.path.as_str())
}

/// The position of the copy to keep among the first `n`: a later one only where it is better
/// than those in front of it.
pub open spec fn keeper_index(c: Seq<CandidateView>, n: nat) -> int
    decreases n,
{
    if n <= 1 {
        0
    } else {
        let k = keeper_index(c, (n - 1) as nat);
        if better(c[n - 1], c[k]) {
            n - 1
        } else {
            k
        }
    }
}

/// The path of the copy to keep.
pub open spec fn keeper_path(c: Seq<CandidateView>) -> Option<Seq<char>> {
    if c.len() == 0 {
        None
    } else {
        Some(c[keeper_index(c, c.len())].path)
    }
}

/// See [`keeper_path`].
pub fn choose_cleanup_keeper(candidates: &[CleanupCandidate]) -> (keeper: Option<String>)
    ensures
        opt_view(keeper) == keeper_path(candidates_view(candidates@)),
        keeper is Some <==> candidates@.len() > 0,
        keeper matches Some(path) ==> keeps_the_best(path@, candidates@),
{
    proof {
        best_copy_is_chosen(candidates@);
    }
    if candidates.len() == 0 {
        return None;
    }
    let ghost views = candidates_view(candidates@);
    let mut best: usize = 0;
    let mut i: usize = 1;
    while i < candidates.len()
        invariant
            views == candidates_view(candidates@),
            1 <= i <= candidates.len(),
            best < i,
            best == keeper_index(views, i as nat),
        decreases candidates.len() - i,
    {
        if is_better(&candidates[i], &candidates[best]) {
            best = i;
        }
        i = i + 1;
    }
    Some(candidates[best].path.clone())
}

proof fn lemma_better_transitive(a: CandidateView, b: CandidateView, c: CandidateView)
    requires
        better(a, b),
        better(b, c),
    ensures
        better(a, c),
{
    if text::text_less(a.path, b.path) && text::text_less(b.path, c.path) {
        text::text_less_transitive(a.path, b.path, c.path);
    }
}

proof fn lemma_better_irreflexive(a: CandidateView)
    ensures
        !better(a, a),
{
    text::text_less_irreflexive(a.path);
}

proof fn lemma_not_better_transitive(a: CandidateView, b: CandidateView, c: CandidateView)
    requires
        !better(a, b),
        !better(b, c),
    ensures
        !better(a, c),
{
    if better(a, c) {
        if a.path != b.path {
            text::text_less_total(a.path, b.path);
        }
        if b.path != c.path {
            text::text_less_total(b.path, c.path);
        }
        if better(b, a) {
            lemma_better_transitive(b, a, c);
        }
        if better(c, b) {
            lemma_better_transitive(a, c, b);
        }
        assert(a.path == b.path);
        assert(b.path == c.path);
        text::text_less_irreflexive(a.path);
    }
}

/// The copy to keep is one of the copies, no copy is better than it, and it is better than every
/// copy in front of it.
pub proof fn keeper_is_best(c: Seq<CandidateView>)
    requires
        c.len() > 0,
    ensures
        0 <= keeper_index(c, c.len()) < c.len(),
        forall|j: int| 0 <= j < c.len() ==> !better(#[trigger] c[j], c[keeper_index(c, c.len())]),
        forall|j: int|
            0 <= j < keeper_index(c, c.len()) ==> #[trigger] better(
                c[keeper_index(c, c.len())],
                c[j],
            ),
{
    lemma_keeper_best_of_first(c, c.len());
}

proof fn lemma_keeper_best_of_first(c: Seq<CandidateView>, n: nat)
    requires
        1 <= n <= c.len(),
    ensures
        0 <= keeper_index(c, n) < n,
        forall|j: int| 0 <= j < n ==> !better(#[trigger] c[j], c[keeper_index(c, n)]),
        forall|j: int| 0 <= j < keeper_index(c, n) ==> #[trigger] better(c[keeper_index(c, n)], c[j]),
    decreases n,
{
    let best = keeper_index(c, n);
    if n == 1 {
        lemma_better_irreflexive(c[0]);
    } else {
        let k = keeper_index(c, (n - 1) as nat);
        lemma_keeper_best_of_first(c, (n - 1) as nat);
        if better(c[n - 1], c[k]) {
            lemma_better_irreflexive(c[n - 1]);
            assert forall|j: int| 0 <= j < n - 1 implies #[trigger] better(c[n - 1], c[j]) by {
                assert(!better(c[j], c[k]));
                if !better(c[n - 1], c[j]) {
                    lemma_not_better_transitive(c[n - 1], c[j], c[k]);
                }
            }
            assert forall|j: int| 0 <= j < n implies !better(#[trigger] c[j], c[best]) by {
                if j < n - 1 && better(c[j], c[n - 1]) {
                    lemma_better_transitive(c[j], c[n - 1], c[k]);
                }
            }
        }
    }
}

} // verus!
