//! Which paths belong to the catalog, and of which kind their files are.

use vstd::prelude::*;

use crate::text;
use crate::text::{eq_ignore_ascii_case, text_eq, to_ascii_lowercase, trim_start_matches};

verus! {

/// A path by what the catalog's rules read of it.
pub struct PathParts {
    /// The components from the root down; `None` for one that is not valid Unicode.
    pub components: Vec<Option<String>>,
    /// The last component, where it is a name in valid Unicode.
    pub file_name: Option<String>,
    /// What follows the last dot of the file name, where it is valid Unicode.
    pub extension: Option<String>,
    /// The whole path as text.
    pub text: String,
}

/// What an optional text stands for.
pub open spec fn opt_view(s: Option<String>) -> Option<Seq<char>> {
    match s {
        Some(t) => Some(t@),
        None => None,
    }
}

/// What an optional borrowed text stands for.
pub open spec fn opt_str_view(s: Option<&str>) -> Option<Seq<char>> {
    match s {
        Some(t) => Some(t@),
        None => None,
    }
}

/// The optional text, borrowed.
pub fn opt_str(s: &Option<String>) -> (r: Option<&str>)
    ensures
        opt_str_view(r) == opt_view(*s),
{
    match s {
        Some(t) => Some(t.as_str()),
        None => None,
    }
}

/// What a list of texts stands for.
pub open spec fn texts_view(s: Seq<String>) -> Seq<Seq<char>> {
    s.map_values(|t: String| t@)
}

/// What a list of borrowed texts stands for.
pub open spec fn strs_view(s: Seq<&'static str>) -> Seq<Seq<char>> {
    s.map_values(|t: &'static str| t@)
}

/// Names of folders that hold derived or private files, in lower case.
pub open spec fn blacklisted_folder_names() -> Seq<Seq<char>> {
    seq![
        "thumbnails"@,
        "thumbnail"@,
        "thumbs"@,
        ".thumbnails"@,
        "ipod photo cache"@,
        "apple tv photo cache"@,
        "photo cache"@,
        "previews"@,
        "preview"@,
        "heic-conversions"@,
        "derivatives"@,
        "renders"@,
        "proxies"@,
        "database"@,
        "contents"@,
        "backup"@,
        "private"@,
        "cpl"@,
        "cloudsharing"@,
        "journals"@,
        "__macosx"@,
        ".spotlight-v100"@,
        ".temporaryitems"@,
        ".trashes"@,
    ]
}

/// See [`blacklisted_folder_names`].
pub fn folder_blacklist() -> (names: Vec<&'static str>)
    ensures
        strs_view(names@) == blacklisted_folder_names(),
{
    let names: Vec<&'static str> = vec![
        "thumbnails",
        "thumbnail",
        "thumbs",
        ".thumbnails",
        "ipod photo cache",
        "apple tv photo cache",
        "photo cache",
        "previews",
        "preview",
        "heic-conversions",
        "derivatives",
        "renders",
        "proxies",
        "database",
        "contents",
        "backup",
        "private",
        "cpl",
        "cloudsharing",
        "journals",
        "__macosx",
        ".spotlight-v100",
        ".temporaryitems",
        ".trashes",
    ];
    assert(strs_view(names@) =~= blacklisted_folder_names());
    names
}

/// Whether one of `names` is `wanted`.
fn list_has(names: &Vec<&'static str>, wanted: &str) -> (yes: bool)
    ensures
        yes == strs_view(names@).contains(wanted@),
{
    let mut i: usize = 0;
    while i < names.len()
        invariant
            i <= names.len(),
            forall|j: int| 0 <= j < i ==> strs_view(names@)[j] != wanted@,
        decreases names.len() - i,
    {
        if text_eq(names[i], wanted) {
            assert(strs_view(names@)[i as int] == wanted@);
            return true;
        }
        i = i + 1;
    }
    false
}

/// Whether a path component takes everything below it out of the catalog: it is hidden, or a
/// blacklisted folder name in any case.
pub open spec fn excluded_component(c: Seq<char>) -> bool {
    ||| c.len() > 0 && c[0] == '.'
    ||| blacklisted_folder_names().contains(text::lower(c))
}

/// Whether a path is outside the catalog: some component is an excluded one.
pub open spec fn excluded_path(parts: PathParts) -> bool {
    exists|i: int|
        0 <= i < parts.components.len() && (#[trigger] parts.components[i] matches Some(c)
            && excluded_component(c@))
}

/// See [`excluded_path`].
pub fn is_excluded_path(parts: &PathParts) -> (excluded: bool)
    ensures
        excluded == excluded_path(*parts),
{
    let names = folder_blacklist();
    let mut i: usize = 0;
    while i < parts.components.len()
        invariant
            strs_view(names@) == blacklisted_folder_names(),
            i <= parts.components.len(),
            forall|j: int|
                0 <= j < i ==> !(#[trigger] parts.components[j] matches Some(c)
                    && excluded_component(c@)),
        decreases parts.components.len() - i,
    {
        if let Some(c) = &parts.components[i] {
            let chars = text::chars_of(c.as_str());
            if chars.len() > 0 && chars[0] == '.' {
                return true;
            }
            let lowered = to_ascii_lowercase(c.as_str());
            if list_has(&names, lowered.as_str()) {
                return true;
            }
        }
        i = i + 1;
    }
    false
}

/// File name extensions of images.
pub open spec fn image_extensions() -> Seq<Seq<char>> {
    seq![
        "jpg"@,
        "jpeg"@,
        "jpe"@,
        "jfif"@,
        "png"@,
        "gif"@,
        "webp"@,
        "bmp"@,
        "dib"@,
        "tif"@,
        "tiff"@,
        "heic"@,
        "heif"@,
        "avif"@,
        "svg"@,
        "ico"@,
        "raw"@,
        "arw"@,
        "cr2"@,
        "cr3"@,
        "nef"@,
        "nrw"@,
        "orf"@,
        "rw2"@,
        "raf"@,
        "dng"@,
        "pef"@,
        "srw"@,
    ]
}

/// File name extensions of videos.
pub open spec fn video_extensions() -> Seq<Seq<char>> {
    seq![
        "mp4"@,
        "mov"@,
        "m4v"@,
        "avi"@,
        "mkv"@,
        "webm"@,
        "wmv"@,
        "mpg"@,
        "mpeg"@,
        "3gp"@,
        "3g2"@,
        "mts"@,
        "m2ts"@,
        "ts"@,
    ]
}

/// An extension without leading dots, in lower case.
pub open spec fn normal_extension(ext: Seq<char>) -> Seq<char> {
    text::lower(text::strip_leading(ext, '.'))
}

/// The kind of media that an extension stands for.
pub open spec fn media_type(ext: Option<Seq<char>>) -> Option<Seq<char>> {
    let e = normal_extension(
        match ext {
            Some(e) => e,
            None => Seq::empty(),
        },
    );
    if image_extensions().contains(e) {
        Some("image"@)
    } else if video_extensions().contains(e) {
        Some("video"@)
    } else {
        None
    }
}

/// See [`media_type`].
pub fn media_type_for_ext(ext: Option<&str>) -> (kind: Option<&'static str>)
    ensures
        opt_str_view(kind) == media_type(opt_str_view(ext)),
{
    let given = match ext {
        Some(e) => e,
        None => "",
    };
    proof {
        reveal_strlit("");
        assert(""@ =~= Seq::<char>::empty());
    }
    let stripped = trim_start_matches(given, '.');
    let e = to_ascii_lowercase(stripped.as_str());
    let images: Vec<&'static str> = vec![
        "jpg", "jpeg", "jpe", "jfif", "png", "gif", "webp", "bmp", "dib", "tif", "tiff", "heic",
        "heif", "avif", "svg", "ico", "raw", "arw", "cr2", "cr3", "nef", "nrw", "orf", "rw2",
        "raf", "dng", "pef", "srw",
    ];
    assert(strs_view(images@) =~= image_extensions());
    if list_has(&images, e.as_str()) {
        return Some("image");
    }
    let videos: Vec<&'static str> = vec![
        "mp4", "mov", "m4v", "avi", "mkv", "webm", "wmv", "mpg", "mpeg", "3gp", "3g2", "mts",
        "m2ts", "ts",
    ];
    assert(strs_view(videos@) =~= video_extensions());
    if list_has(&videos, e.as_str()) {
        Some("video")
    } else {
        None
    }
}

/// Whether a file is a face preview tile: an image whose name starts with `facetile`, in any
/// case.
pub open spec fn facetile(parts: PathParts) -> bool {
    &&& media_type(opt_view(parts.extension)) == Some("image"@)
    &&& parts.file_name matches Some(name)
    &&& text::lower(text::head(name@, 8)) == text::lower("facetile"@)
}

/// See [`facetile`].
pub fn is_facetile_image_path(parts: &PathParts) -> (tile: bool)
    ensures
        tile == facetile(*parts),
{
    match media_type_for_ext(opt_str(&parts.extension)) {
        Some(kind) => if !text_eq(kind, "image") {
            return false;
        },
        None => {
            return false;
        },
    }
    match &parts.file_name {
        Some(name) => {
            let start = text::take_chars(name.as_str(), 8);
            eq_ignore_ascii_case(start.as_str(), "facetile")
        },
        None => false,
    }
}

/// Whether an extension stands for an HEIC image.
pub open spec fn heic_extension(ext: Option<Seq<char>>) -> bool {
    ext matches Some(e) && (normal_extension(e) == "heic"@ || normal_extension(e) == "heif"@)
}

/// Whether a path names an HEIC image. See [`heic_extension`].
pub fn is_heic_path(parts: &PathParts) -> (heic: bool)
    ensures
        heic == heic_extension(opt_view(parts.extension)),
{
    match &parts.extension {
        Some(e) => {
            let stripped = trim_start_matches(e.as_str(), '.');
            let e = to_ascii_lowercase(stripped.as_str());
            text_eq(e.as_str(), "heic") || text_eq(e.as_str(), "heif")
        },
        None => false,
    }
}

/// A path text without the prefix of verbatim paths.
pub open spec fn clean_path(s: Seq<char>) -> Seq<char> {
    if text::has_prefix(s, "\\\\?\\"@) {
        s.skip(4)
    } else {
        s
    }
}

/// See [`clean_path`].
pub fn clean_path_str(s: &str) -> (r: String)
    ensures
        r@ == clean_path(s@),
{
    proof {
        reveal_strlit("\\\\?\\");
    }
    match text::strip_prefix(s, "\\\\?\\") {
        Some(rest) => rest,
        None => s.to_string(),
    }
}

/// A path text without any leading run of the prefix of verbatim paths.
pub open spec fn bare_path(s: Seq<char>) -> Seq<char>
    decreases s.len(),
{
    if text::has_prefix(s, "\\\\?\\"@) && s.len() >= 4 {
        bare_path(s.skip(4))
    } else {
        s
    }
}

/// See [`bare_path`].
pub fn bare_path_str(s: &str) -> (r: String)
    ensures
        r@ == bare_path(s@),
{
    proof {
        reveal_strlit("\\\\?\\");
    }
    let mut out = s.to_string();
    loop
        invariant
            "\\\\?\\"@.len() == 4,
            bare_path(out@) == bare_path(s@),
        ensures
            out@ == bare_path(s@),
        decreases out@.len(),
    {
        match text::strip_prefix(out.as_str(), "\\\\?\\") {
            Some(rest) => {
                out = rest;
            },
            None => {
                break;
            },
        }
    }
    out
}

/// Whether the components of `root` are the first components of `path`.
pub open spec fn under_root(path: Seq<Seq<char>>, root: Seq<Seq<char>>) -> bool {
    root.len() <= path.len() && path.take(root.len() as int) == root
}

fn is_under_root(path: &Vec<String>, root: &Vec<String>) -> (under: bool)
    ensures
        under == under_root(texts_view(path@), texts_view(root@)),
{
    if root.len() > path.len() {
        return false;
    }
    let ghost p = texts_view(path@);
    let ghost r = texts_view(root@);
    let mut i: usize = 0;
    while i < root.len()
        invariant
            i <= root.len() <= path.len(),
            p == texts_view(path@),
            r == texts_view(root@),
            forall|j: int| 0 <= j < i ==> p[j] == r[j],
        decreases root.len() - i,
    {
        if !text_eq(path[i].as_str(), root[i].as_str()) {
            assert(p.take(r.len() as int)[i as int] != r[i as int]);
            return false;
        }
        assert(p[i as int] == r[i as int]);
        i = i + 1;
    }
    assert(p.take(r.len() as int) =~= r);
    true
}

/// Whether a path, by its components, lies under one of the roots, by theirs.
pub fn path_is_under_roots(path: &Vec<String>, roots: &Vec<Vec<String>>) -> (under: bool)
    ensures
        under == exists|i: int|
            0 <= i < roots.len() && under_root(texts_view(path@), texts_view(#[trigger] roots[i]@)),
{
    let mut i: usize = 0;
    while i < roots.len()
        invariant
            i <= roots.len(),
            forall|j: int|
                0 <= j < i ==> !under_root(texts_view(path@), texts_view(#[trigger] roots[j]@)),
        decreases roots.len() - i,
    {
        if is_under_root(path, &roots[i]) {
            return true;
        }
        i = i + 1;
    }
    false
}

/// Library folders as they are shown.
pub fn shown_folders(folders: &Vec<String>) -> (shown: Vec<String>)
    ensures
        texts_view(shown@) == texts_view(folders@).map_values(|f: Seq<char>| clean_path(f)),
{
    let mut out: Vec<String> = Vec::new();
    let mut i: usize = 0;
    while i < folders.len()
        invariant
            i <= folders.len(),
            out.len() == i,
            forall|j: int| 0 <= j < i ==> (#[trigger] out[j])@ == clean_path(folders[j]@),
        decreases folders.len() - i,
    {
        out.push(clean_path_str(folders[i].as_str()));
        i = i + 1;
    }
    assert(texts_view(out@) =~= texts_view(folders@).map_values(|f: Seq<char>| clean_path(f)));
    out
}

/// The folder that was typed in, if it is one.
pub fn typed_folder(path: &str, is_dir: bool) -> (folder: Option<String>)
    ensures
        opt_view(folder) == if is_dir {
            Some(clean_path(path@))
        } else {
            None
        },
{
    if is_dir {
        Some(clean_path_str(path))
    } else {
        None
    }
}

} // verus!
