//! What becomes of a file that is indexed: passed over, left as it is, or written to the catalog.

use vstd::prelude::*;

use crate::collections::TextMap;
use crate::discovery::indexable;
use crate::paths::{
    bare_path, bare_path_str, clean_path, clean_path_str, facetile, is_excluded_path,
    is_facetile_image_path, media_type, media_type_for_ext, opt_str, opt_view, PathParts,
};
use crate::photo::{PhotoFacts, PhotoView};
use crate::text;

verus! {

/// The state of a file by which a change is noticed.
#[derive(Clone, Copy)]
pub struct MediaFingerprint {
    pub size_bytes: Option<i64>,
    pub modified_at: Option<i64>,
}

/// What the file system tells of a path.
#[derive(Clone, Copy)]
pub struct FileFacts {
    pub is_file: bool,
    pub size_bytes: i64,
    pub created_at: Option<i64>,
    pub modified_at: Option<i64>,
}

/// The extension of a file in lower case.
pub open spec fn lower_extension(parts: PathParts) -> Option<Seq<char>> {
    match parts.extension {
        Some(e) => Some(text::lower(e@)),
        None => None,
    }
}

fn extension_of(parts: &PathParts) -> (e: Option<String>)
    ensures
        opt_view(e) == lower_extension(*parts),
{
    match &parts.extension {
        Some(e) => Some(text::to_ascii_lowercase(e.as_str())),
        None => None,
    }
}

/// The media type by which a file is indexed.
pub open spec fn indexed_type(parts: PathParts) -> Option<Seq<char>> {
    if indexable(parts) {
        media_type(lower_extension(parts))
    } else {
        None
    }
}

proof fn lemma_lower_twice(s: Seq<char>)
    ensures
        text::lower(text::lower(s)) == text::lower(s),
{
    assert(text::lower(text::lower(s)) =~= text::lower(s));
}

proof fn lemma_strip_lower(s: Seq<char>, c: char)
    requires
        c == '.',
    ensures
        text::lower(text::strip_leading(text::lower(s), c)) == text::lower(
            text::strip_leading(s, c),
        ),
    decreases s.len(),
{
    if s.len() > 0 {
        assert(text::lower(s).first() == text::lower_char(s.first()));
        if s.first() == c {
            assert(text::lower(s).drop_first() =~= text::lower(s.drop_first()));
            lemma_strip_lower(s.drop_first(), c);
        } else {
            lemma_lower_twice(s);
        }
    } else {
        lemma_lower_twice(s);
    }
}

/// The case of an extension does not matter to the media type of a file.
pub proof fn extension_case_does_not_matter(parts: PathParts)
    ensures
        media_type(lower_extension(parts)) == media_type(opt_view(parts.extension)),
{
    if let Some(e) = parts.extension {
        lemma_strip_lower(e@, '.');
    }
}

/// The type under which a file is indexed, where its path belongs to the catalog. See
/// [`indexed_type`].
pub fn type_to_index(parts: &PathParts) -> (kind: Option<&'static str>)
    ensures
        crate::paths::opt_str_view(kind) == indexed_type(*parts),
        kind is Some <==> indexable(*parts),
{
    proof {
        extension_case_does_not_matter(*parts);
    }
    if is_excluded_path(parts) {
        return None;
    }
    let ext = extension_of(parts);
    match media_type_for_ext(opt_str(&ext)) {
        Some(kind) => if is_facetile_image_path(parts) {
            None
        } else {
            Some(kind)
        },
        None => None,
    }
}

/// What is done with a file whose state is known.
pub enum IndexStep {
    /// Nothing: it is no regular file.
    Skip,
    /// Nothing: the catalog knows it in this state.
    Unchanged,
    /// It is written to the catalog, after its Exif data was read where it is an image.
    Write {
        read_exif: bool,
    },
}

/// Whether the catalog knows a file in the state that it is in.
pub open spec fn is_known(
    known: Map<Seq<char>, MediaFingerprint>,
    path: Seq<char>,
    facts: FileFacts,
) -> bool {
    known.contains_key(path) && known[path].size_bytes == Some(facts.size_bytes)
        && known[path].modified_at == facts.modified_at
}

/// What is done with a file of the given type.
pub open spec fn step_of(
    parts: PathParts,
    kind: Seq<char>,
    facts: FileFacts,
    known: Map<Seq<char>, MediaFingerprint>,
) -> IndexStep {
    if !facts.is_file {
        IndexStep::Skip
    } else if is_known(known, clean_path(parts.text@), facts) {
        IndexStep::Unchanged
    } else {
        IndexStep::Write { read_exif: kind == "image"@ }
    }
}

/// See [`step_of`].
pub fn index_step(
    parts: &PathParts,
    kind: &str,
    facts: &FileFacts,
    known: &TextMap<MediaFingerprint>,
) -> (step: IndexStep)
    ensures
        step == step_of(*parts, kind@, *facts, known@),
{
    if !facts.is_file {
        return IndexStep::Skip;
    }
    let path = clean_path_str(parts.text.as_str());
    if let Some(f) = known.get(path.as_str()) {
        if f.size_bytes == Some(facts.size_bytes) && f.modified_at == facts.modified_at {
            return IndexStep::Unchanged;
        }
    }
    IndexStep::Write { read_exif: text::text_eq(kind, "image") }
}

/// The message for a file whose state could not be read.
pub fn metadata_error(path: &str, e: &str) -> (message: String)
    ensures
        message@ == path@ + ": "@ + e@,
{
    text::concat3(path, ": ", e)
}

/// A row of the catalog for a file.
pub struct IndexedMedia {
    pub path: String,
    pub file_name: String,
    pub extension: Option<String>,
    pub media_type: String,
    pub size_bytes: Option<i64>,
    pub created_at: Option<i64>,
    pub modified_at: Option<i64>,
    pub imported_at: i64,
    pub photo: PhotoFacts,
}

/// What an [`IndexedMedia`] stands for.
pub struct IndexedView {
    pub path: Seq<char>,
    pub file_name: Seq<char>,
    pub extension: Option<Seq<char>>,
    pub media_type: Seq<char>,
    pub size_bytes: Option<i64>,
    pub created_at: Option<i64>,
    pub modified_at: Option<i64>,
    pub imported_at: i64,
    pub photo: PhotoView,
}

impl View for IndexedMedia {
    type V = IndexedView;

    open spec fn view(&self) -> IndexedView {
        IndexedView {
            path: self.path@,
            file_name: self.file_name@,
            extension: opt_view(self.extension),
            media_type: self.media_type@,
            size_bytes: self.size_bytes,
            created_at: self.created_at,
            modified_at: self.modified_at,
            imported_at: self.imported_at,
            photo: self.photo@,
        }
    }
}

/// The row of a file.
pub open spec fn media_row(
    parts: PathParts,
    kind: Seq<char>,
    facts: FileFacts,
    photo: PhotoView,
    now: i64,
) -> IndexedView {
    IndexedView {
        path: clean_path(parts.text@),
        file_name: match parts.file_name {
            Some(n) => n@,
            None => Seq::empty(),
        },
        extension: lower_extension(parts),
        media_type: kind,
        size_bytes: Some(facts.size_bytes),
        created_at: facts.created_at,
        modified_at: facts.modified_at,
        imported_at: now,
        photo,
    }
}

/// See [`media_row`].
pub fn indexed_media(
    parts: &PathParts,
    kind: &str,
    facts: &FileFacts,
    photo: PhotoFacts,
    now: i64,
) -> (row: IndexedMedia)
    ensures
        row@ == media_row(*parts, kind@, *facts, photo@, now),
{
    IndexedMedia {
        path: clean_path_str(parts.text.as_str()),
        file_name: match &parts.file_name {
            Some(n) => n.clone(),
            None => String::new(),
        },
        extension: extension_of(parts),
        media_type: kind.to_string(),
        size_bytes: Some(facts.size_bytes),
        created_at: facts.created_at,
        modified_at: facts.modified_at,
        imported_at: now,
        photo,
    }
}

/// The state by which the catalog knows a row.
pub open spec fn fingerprint_of(row: IndexedView) -> MediaFingerprint {
    MediaFingerprint { size_bytes: row.size_bytes, modified_at: row.modified_at }
}

/// The state that a file is in.
pub open spec fn state_of(facts: FileFacts) -> MediaFingerprint {
    MediaFingerprint { size_bytes: Some(facts.size_bytes), modified_at: facts.modified_at }
}

/// A file that was written to the catalog is known by the state that it was in, and is left as it
/// is until its size or its time of change differs.
pub proof fn indexed_file_is_known(
    parts: PathParts,
    kind: Seq<char>,
    facts: FileFacts,
    photo: PhotoView,
    now: i64,
    known: Map<Seq<char>, MediaFingerprint>,
    later: FileFacts,
)
    ensures
        ({
            let row = media_row(parts, kind, facts, photo, now);
            &&& row.path == clean_path(parts.text@)
            &&& fingerprint_of(row) == state_of(facts)
            &&& is_known(known.insert(row.path, fingerprint_of(row)), row.path, later) <==> (
            later.size_bytes == facts.size_bytes && later.modified_at == facts.modified_at)
        }),
{
}

/// The type under which the benchmark handles a file: it does not look at excluded folders again.
pub open spec fn benchmark_type(parts: PathParts) -> Option<Seq<char>> {
    if facetile(parts) {
        None
    } else {
        media_type(opt_view(parts.extension))
    }
}

/// The row that the benchmark writes for a file.
pub struct BenchmarkRow {
    pub path: String,
    pub name: String,
    pub extension: Option<String>,
    pub media_type: String,
    pub size: i64,
    pub created: Option<i64>,
    pub modified: Option<i64>,
}

/// The benchmark's row of a file, by its name and its state. `None` where the file is none that is
/// indexed.
pub fn process_file(parts: &PathParts, name: Option<String>, facts: &FileFacts) -> (row: Option<
    BenchmarkRow,
>)
    ensures
        match row {
            Some(r) => {
                &&& facts.is_file
                &&& benchmark_type(*parts) == Some(r.media_type@)
                &&& name == Some(r.name)
                &&& r.path@ == bare_path(parts.text@)
                &&& opt_view(r.extension) == lower_extension(*parts)
                &&& r.size == facts.size_bytes
                &&& r.created == facts.created_at
                &&& r.modified == facts.modified_at
            },
            None => !facts.is_file || benchmark_type(*parts) is None || name is None,
        },
{
    proof {
        extension_case_does_not_matter(*parts);
    }
    let extension = extension_of(parts);
    let kind = match media_type_for_ext(opt_str(&extension)) {
        Some(kind) => kind,
        None => {
            return None;
        },
    };
    if is_facetile_image_path(parts) || !facts.is_file {
        return None;
    }
    match name {
        Some(name) => Some(
            BenchmarkRow {
                path: bare_path_str(parts.text.as_str()),
                name,
                extension,
                media_type: kind.to_string(),
                size: facts.size_bytes,
                created: facts.created_at,
                modified: facts.modified_at,
            },
        ),
        None => None,
    }
}

/// Whether a file changed since the benchmark wrote its row, by the rows' states; `None` where the
/// file is none that is indexed.
pub fn process_file_with_cache(
    parts: &PathParts,
    facts: &FileFacts,
    known: &TextMap<MediaFingerprint>,
) -> (changed: Option<bool>)
    ensures
        changed == if facts.is_file && benchmark_type(*parts) is Some {
            Some(!is_known(known@, bare_path(parts.text@), *facts))
        } else {
            None
        },
{
    if media_type_for_ext(opt_str(&parts.extension)).is_none() || is_facetile_image_path(parts)
        || !facts.is_file {
        return None;
    }
    let path = bare_path_str(parts.text.as_str());
    match known.get(path.as_str()) {
        Some(f) => Some(
            !(f.size_bytes == Some(facts.size_bytes) && f.modified_at == facts.modified_at),
        ),
        None => Some(true),
    }
}

} // verus!
