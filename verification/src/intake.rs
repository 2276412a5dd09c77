//! Which files the catalog takes in, and what it writes of them.

use vstd::prelude::*;

use crate::discovery::{after_entry, indexable, DiscoveryView, Listed};
use crate::indexing::{
    benchmark_type, indexed_type, is_known, media_row, step_of, FileFacts, IndexStep,
    IndexedMedia, MediaFingerprint,
};
use crate::paths::{
    bare_path, blacklisted_folder_names, clean_path, excluded_path, facetile, heic_extension,
    image_extensions, media_type, normal_extension, opt_view, under_root, video_extensions,
    PathParts,
};
use crate::photo::PhotoFacts;
use crate::pool::{
    call_error, slot_fate, slots_after_release, slots_after_return, FaceCallEnd, FaceSlot,
};
use crate::scan::{
    counted, missing_ids, new_positions, shows_rest, shows_result, total_after, IndexOutcome,
    ScanCounts,
};
use crate::selection::positions;
use crate::text;

verus! {

/// The names of folders that hold derived or private files, in lower case.
pub open spec fn is_derived_folder(name: Seq<char>) -> bool {
    ||| name == "thumbnails"@
    ||| name == "thumbnail"@
    ||| name == "thumbs"@
    ||| name == ".thumbnails"@
    ||| name == "ipod photo cache"@
    ||| name == "apple tv photo cache"@
    ||| name == "photo cache"@
    ||| name == "previews"@
    ||| name == "preview"@
    ||| name == "heic-conversions"@
    ||| name == "derivatives"@
    ||| name == "renders"@
    ||| name == "proxies"@
    ||| name == "database"@
    ||| name == "contents"@
    ||| name == "backup"@
    ||| name == "private"@
    ||| name == "cpl"@
    ||| name == "cloudsharing"@
    ||| name == "journals"@
    ||| name == "__macosx"@
    ||| name == ".spotlight-v100"@
    ||| name == ".temporaryitems"@
    ||| name == ".trashes"@
}

/// The extensions of images, in lower case.
pub open spec fn is_image_extension(e: Seq<char>) -> bool {
    ||| e == "jpg"@
    ||| e == "jpeg"@
    ||| e == "jpe"@
    ||| e == "jfif"@
    ||| e == "png"@
    ||| e == "gif"@
    ||| e == "webp"@
    ||| e == "bmp"@
    ||| e == "dib"@
    ||| e == "tif"@
    ||| e == "tiff"@
    ||| e == "heic"@
    ||| e == "heif"@
    ||| e == "avif"@
    ||| e == "svg"@
    ||| e == "ico"@
    ||| e == "raw"@
    ||| e == "arw"@
    ||| e == "cr2"@
    ||| e == "cr3"@
    ||| e == "nef"@
    ||| e == "nrw"@
    ||| e == "orf"@
    ||| e == "rw2"@
    ||| e == "raf"@
    ||| e == "dng"@
    ||| e == "pef"@
    ||| e == "srw"@
}

/// The extensions of videos, in lower case.
pub open spec fn is_video_extension(e: Seq<char>) -> bool {
    ||| e == "mp4"@
    ||| e == "mov"@
    ||| e == "m4v"@
    ||| e == "avi"@
    ||| e == "mkv"@
    ||| e == "webm"@
    ||| e == "wmv"@
    ||| e == "mpg"@
    ||| e == "mpeg"@
    ||| e == "3gp"@
    ||| e == "3g2"@
    ||| e == "mts"@
    ||| e == "m2ts"@
    ||| e == "ts"@
}

/// The folders that are left out are those of derived and private files, and no others.
pub proof fn derived_folders_are_left_out(name: Seq<char>)
    ensures
        blacklisted_folder_names().contains(name) <==> is_derived_folder(name),
{
    let list = blacklisted_folder_names();
    assert(list.len() == 24);
    assert(list[0] == "thumbnails"@);
    assert(list[1] == "thumbnail"@);
    assert(list[2] == "thumbs"@);
    assert(list[3] == ".thumbnails"@);
    assert(list[4] == "ipod photo cache"@);
    assert(list[5] == "apple tv photo cache"@);
    assert(list[6] == "photo cache"@);
    assert(list[7] == "previews"@);
    assert(list[8] == "preview"@);
    assert(list[9] == "heic-conversions"@);
    assert(list[10] == "derivatives"@);
    assert(list[11] == "renders"@);
    assert(list[12] == "proxies"@);
    assert(list[13] == "database"@);
    assert(list[14] == "contents"@);
    assert(list[15] == "backup"@);
    assert(list[16] == "private"@);
    assert(list[17] == "cpl"@);
    assert(list[18] == "cloudsharing"@);
    assert(list[19] == "journals"@);
    assert(list[20] == "__macosx"@);
    assert(list[21] == ".spotlight-v100"@);
    assert(list[22] == ".temporaryitems"@);
    assert(list[23] == ".trashes"@);
    if list.contains(name) {
        let i = choose|i: int| 0 <= i < list.len() && list[i] == name;
        assert(is_derived_folder(list[i]));
    }
    if is_derived_folder(name) {
        assert(list.contains(name));
    }
}

/// An image is told by one of these extensions, and by no other.
pub proof fn images_are_told_by_their_extension(e: Seq<char>)
    ensures
        image_extensions().contains(e) <==> is_image_extension(e),
{
    let list = image_extensions();
    assert(list.len() == 28);
    assert(list[0] == "jpg"@);
    assert(list[1] == "jpeg"@);
    assert(list[2] == "jpe"@);
    assert(list[3] == "jfif"@);
    assert(list[4] == "png"@);
    assert(list[5] == "gif"@);
    assert(list[6] == "webp"@);
    assert(list[7] == "bmp"@);
    assert(list[8] == "dib"@);
    assert(list[9] == "tif"@);
    assert(list[10] == "tiff"@);
    assert(list[11] == "heic"@);
    assert(list[12] == "heif"@);
    assert(list[13] == "avif"@);
    assert(list[14] == "svg"@);
    assert(list[15] == "ico"@);
    assert(list[16] == "raw"@);
    assert(list[17] == "arw"@);
    assert(list[18] == "cr2"@);
    assert(list[19] == "cr3"@);
    assert(list[20] == "nef"@);
    assert(list[21] == "nrw"@);
    assert(list[22] == "orf"@);
    assert(list[23] == "rw2"@);
    assert(list[24] == "raf"@);
    assert(list[25] == "dng"@);
    assert(list[26] == "pef"@);
    assert(list[27] == "srw"@);
    if list.contains(e) {
        let i = choose|i: int| 0 <= i < list.len() && list[i] == e;
        assert(is_image_extension(list[i]));
    }
    if is_image_extension(e) {
        assert(list.contains(e));
    }
}

/// A video is told by one of these extensions, and by no other.
pub proof fn videos_are_told_by_their_extension(e: Seq<char>)
    ensures
        video_extensions().contains(e) <==> is_video_extension(e),
{
    let list = video_extensions();
    assert(list.len() == 14);
    assert(list[0] == "mp4"@);
    assert(list[1] == "mov"@);
    assert(list[2] == "m4v"@);
    assert(list[3] == "avi"@);
    assert(list[4] == "mkv"@);
    assert(list[5] == "webm"@);
    assert(list[6] == "wmv"@);
    assert(list[7] == "mpg"@);
    assert(list[8] == "mpeg"@);
    assert(list[9] == "3gp"@);
    assert(list[10] == "3g2"@);
    assert(list[11] == "mts"@);
    assert(list[12] == "m2ts"@);
    assert(list[13] == "ts"@);
    if list.contains(e) {
        let i = choose|i: int| 0 <= i < list.len() && list[i] == e;
        assert(is_video_extension(list[i]));
    }
    if is_video_extension(e) {
        assert(list.contains(e));
    }
}

/// Whether a path is left out: one of its components is hidden, or has the name of a folder of
/// derived files in any case.
pub open spec fn is_left_out(parts: PathParts) -> bool {
    exists|i: int|
        0 <= i < parts.components.len() && (#[trigger] parts.components[i]) is Some && ({
            let c = parts.components[i]->0@;
            (c.len() > 0 && c[0] == '.') || is_derived_folder(text::lower(c))
        })
}

/// A path is excluded exactly where one of its components is hidden or names a folder of derived
/// files, at whatever depth it stands.
pub proof fn paths_are_left_out_by_any_component(parts: PathParts)
    ensures
        excluded_path(parts) <==> is_left_out(parts),
{
    if excluded_path(parts) {
        let i = choose|i: int|
            0 <= i < parts.components.len() && (#[trigger] parts.components[i] matches Some(c)
                && crate::paths::excluded_component(c@));
        let c = parts.components[i]->0@;
        derived_folders_are_left_out(text::lower(c));
        assert(parts.components[i] is Some);
    }
    if is_left_out(parts) {
        let i = choose|i: int|
            0 <= i < parts.components.len() && (#[trigger] parts.components[i]) is Some && ({
                let c = parts.components[i]->0@;
                (c.len() > 0 && c[0] == '.') || is_derived_folder(text::lower(c))
            });
        let c = parts.components[i]->0@;
        derived_folders_are_left_out(text::lower(c));
        assert(crate::paths::excluded_component(c));
    }
}

/// What is left out stays left out below: a path with all components of another, and more, is
/// excluded where that one is.
pub proof fn nothing_below_an_excluded_folder_is_taken(folder: PathParts, below: PathParts)
    requires
        folder.components@.is_prefix_of(below.components@),
        excluded_path(folder),
    ensures
        excluded_path(below),
        !indexable(below),
{
    let i = choose|i: int|
        0 <= i < folder.components.len() && (#[trigger] folder.components[i] matches Some(c)
            && crate::paths::excluded_component(c@));
    assert(below.components@[i] == folder.components@[i]);
    assert(below.components[i] == folder.components[i]);
}

proof fn lemma_strip_leading(s: Seq<char>, c: char)
    ensures
        text::strip_leading(s, c).len() <= s.len(),
        text::strip_leading(s, c) == s.skip(s.len() - text::strip_leading(s, c).len()),
        forall|i: int|
            0 <= i < s.len() - text::strip_leading(s, c).len() ==> #[trigger] s[i] == c,
        text::strip_leading(s, c).len() > 0 ==> text::strip_leading(s, c)[0] != c,
    decreases s.len(),
{
    if s.len() > 0 && s.first() == c {
        let rest = s.drop_first();
        lemma_strip_leading(rest, c);
        let cut = s.len() - text::strip_leading(s, c).len();
        assert(text::strip_leading(s, c) =~= s.skip(cut));
        assert forall|i: int| 0 <= i < cut implies #[trigger] s[i] == c by {
            if i > 0 {
                assert(rest[i - 1] == c);
            }
        }
    } else {
        assert(s.skip(0) =~= s);
    }
}

/// Whether `e` is what an extension comes to: the rest of it behind all leading dots, in lower case.
pub open spec fn is_plain_extension(ext: Seq<char>, e: Seq<char>) -> bool {
    exists|n: int|
        0 <= n <= ext.len() && (forall|i: int| 0 <= i < n ==> #[trigger] ext[i] == '.') && (n
            < ext.len() ==> ext[n] != '.') && e == text::lower(#[trigger] ext.skip(n))
}

/// The kind of a file goes by its extension alone: leading dots and case do not count, an image is
/// told by the extensions of images, a video by those of videos, and anything else is no media.
pub proof fn kind_goes_by_the_extension(ext: Seq<char>)
    ensures
        media_type(None) is None,
        is_plain_extension(ext, normal_extension(ext)),
        is_image_extension(normal_extension(ext)) ==> media_type(Some(ext)) == Some("image"@),
        is_video_extension(normal_extension(ext)) && !is_image_extension(normal_extension(ext))
            ==> media_type(Some(ext)) == Some("video"@),
        !is_video_extension(normal_extension(ext)) && !is_image_extension(normal_extension(ext))
            ==> media_type(Some(ext)) is None,
        heic_extension(Some(ext)) <==> normal_extension(ext) == "heic"@ || normal_extension(ext)
            == "heif"@,
        !heic_extension(None),
{
    let rest = text::strip_leading(ext, '.');
    lemma_strip_leading(ext, '.');
    let n = ext.len() - rest.len();
    assert(rest == ext.skip(n));
    images_are_told_by_their_extension(normal_extension(ext));
    videos_are_told_by_their_extension(normal_extension(ext));
    let none = normal_extension(Seq::empty());
    assert(text::strip_leading(Seq::empty(), '.') =~= Seq::empty());
    assert(none =~= Seq::empty());
    images_are_told_by_their_extension(none);
    videos_are_told_by_their_extension(none);
    lemma_no_empty_extension();
}

proof fn lemma_no_empty_extension()
    ensures
        !is_image_extension(Seq::empty()),
        !is_video_extension(Seq::empty()),
{
    reveal_strlit("jpg");
    assert("jpg"@.len() == 3);
    reveal_strlit("jpeg");
    assert("jpeg"@.len() == 4);
    reveal_strlit("jpe");
    assert("jpe"@.len() == 3);
    reveal_strlit("jfif");
    assert("jfif"@.len() == 4);
    reveal_strlit("png");
    assert("png"@.len() == 3);
    reveal_strlit("gif");
    assert("gif"@.len() == 3);
    reveal_strlit("webp");
    assert("webp"@.len() == 4);
    reveal_strlit("bmp");
    assert("bmp"@.len() == 3);
    reveal_strlit("dib");
    assert("dib"@.len() == 3);
    reveal_strlit("tif");
    assert("tif"@.len() == 3);
    reveal_strlit("tiff");
    assert("tiff"@.len() == 4);
    reveal_strlit("heic");
    assert("heic"@.len() == 4);
    reveal_strlit("heif");
    assert("heif"@.len() == 4);
    reveal_strlit("avif");
    assert("avif"@.len() == 4);
    reveal_strlit("svg");
    assert("svg"@.len() == 3);
    reveal_strlit("ico");
    assert("ico"@.len() == 3);
    reveal_strlit("raw");
    assert("raw"@.len() == 3);
    reveal_strlit("arw");
    assert("arw"@.len() == 3);
    reveal_strlit("cr2");
    assert("cr2"@.len() == 3);
    reveal_strlit("cr3");
    assert("cr3"@.len() == 3);
    reveal_strlit("nef");
    assert("nef"@.len() == 3);
    reveal_strlit("nrw");
    assert("nrw"@.len() == 3);
    reveal_strlit("orf");
    assert("orf"@.len() == 3);
    reveal_strlit("rw2");
    assert("rw2"@.len() == 3);
    reveal_strlit("raf");
    assert("raf"@.len() == 3);
    reveal_strlit("dng");
    assert("dng"@.len() == 3);
    reveal_strlit("pef");
    assert("pef"@.len() == 3);
    reveal_strlit("srw");
    assert("srw"@.len() == 3);
    reveal_strlit("mp4");
    assert("mp4"@.len() == 3);
    reveal_strlit("mov");
    assert("mov"@.len() == 3);
    reveal_strlit("m4v");
    assert("m4v"@.len() == 3);
    reveal_strlit("avi");
    assert("avi"@.len() == 3);
    reveal_strlit("mkv");
    assert("mkv"@.len() == 3);
    reveal_strlit("webm");
    assert("webm"@.len() == 4);
    reveal_strlit("wmv");
    assert("wmv"@.len() == 3);
    reveal_strlit("mpg");
    assert("mpg"@.len() == 3);
    reveal_strlit("mpeg");
    assert("mpeg"@.len() == 4);
    reveal_strlit("3gp");
    assert("3gp"@.len() == 3);
    reveal_strlit("3g2");
    assert("3g2"@.len() == 3);
    reveal_strlit("mts");
    assert("mts"@.len() == 3);
    reveal_strlit("m2ts");
    assert("m2ts"@.len() == 4);
    reveal_strlit("ts");
    assert("ts"@.len() == 2);
}

/// A face tile is an image whose name starts with `facetile` in any case; a path without a name is
/// none.
pub proof fn face_tile_is_told_by_its_name(parts: PathParts)
    ensures
        facetile(parts) <==> media_type(opt_view(parts.extension)) == Some("image"@)
            && parts.file_name is Some && ({
            let name = parts.file_name->0@;
            name.len() >= 8 && text::lower(name.take(8)) == "facetile"@
        }),
{
    reveal_strlit("facetile");
    assert(text::lower("facetile"@) =~= "facetile"@);
    if parts.file_name is Some {
        let name = parts.file_name->0@;
        if name.len() < 8 {
            assert(text::lower(text::head(name, 8)).len() == name.len());
        }
    }
}

/// A file is taken in exactly where nothing on its path is left out and it is an image or a video,
/// but no face tile; its kind is then that of its extension.
pub proof fn only_media_is_taken_in(parts: PathParts)
    ensures
        indexable(parts) <==> !is_left_out(parts) && !facetile(parts) && media_type(
            opt_view(parts.extension),
        ) is Some,
        indexed_type(parts) is Some <==> indexable(parts),
        indexed_type(parts) is Some ==> indexed_type(parts) == media_type(
            opt_view(parts.extension),
        ),
        facetile(parts) ==> benchmark_type(parts) is None,
        !facetile(parts) ==> benchmark_type(parts) == media_type(opt_view(parts.extension)),
{
    paths_are_left_out_by_any_component(parts);
    crate::indexing::extension_case_does_not_matter(parts);
}

/// Cleaning takes one long-path mark from the front and nothing else; a bare path has none left.
pub proof fn cleaning_takes_the_mark_only(s: Seq<char>)
    ensures
        clean_path("\\\\?\\"@ + s) == s,
        !("\\\\?\\"@.is_prefix_of(s)) ==> clean_path(s) == s && bare_path(s) == s,
        bare_path("\\\\?\\"@ + s) == bare_path(s),
        !("\\\\?\\"@.is_prefix_of(bare_path(s))),
    decreases s.len(),
{
    reveal_strlit("\\\\?\\");
    let mark = "\\\\?\\"@;
    let marked = mark + s;
    assert(marked.skip(4) =~= s);
    assert(marked.take(4) =~= mark);
    if mark.is_prefix_of(s) {
        assert(s.take(4) =~= mark);
        let rest = s.skip(4);
        assert(s =~= mark + rest);
        cleaning_takes_the_mark_only(rest);
    } else {
        if s.len() >= 4 {
            assert(s.take(4) =~= mark ==> mark.is_prefix_of(s));
        }
    }
}

/// A path is under a root exactly where it is the root's components and any others behind them.
pub proof fn under_a_root_is_behind_its_components(
    path: Seq<Seq<char>>,
    root: Seq<Seq<char>>,
    rest: Seq<Seq<char>>,
)
    ensures
        under_root(root + rest, root),
        under_root(path, root) ==> path == root + path.skip(root.len() as int),
        under_root(path, Seq::empty()),
        under_root(root, root + rest) ==> rest.len() == 0,
{
    assert((root + rest).take(root.len() as int) =~= root);
    if under_root(path, root) {
        assert(path =~= root + path.skip(root.len() as int));
    }
    assert(path.take(0) =~= Seq::empty());
}

/// Whether the catalog knows a file in the state in which it was found.
pub open spec fn is_unchanged(
    known: Map<Seq<char>, MediaFingerprint>,
    path: Seq<char>,
    facts: FileFacts,
) -> bool {
    &&& known.contains_key(path)
    &&& known[path].size_bytes is Some && known[path].size_bytes->0 == facts.size_bytes
    &&& known[path].modified_at == facts.modified_at
}

/// A file is written exactly where it is a regular file that the catalog does not know in its
/// state, and Exif data is read of images alone.
pub proof fn only_changed_files_are_written(
    parts: PathParts,
    kind: Seq<char>,
    facts: FileFacts,
    known: Map<Seq<char>, MediaFingerprint>,
)
    ensures
        ({
            let step = step_of(parts, kind, facts, known);
            let same = is_unchanged(known, clean_path(parts.text@), facts);
            &&& step is Skip <==> !facts.is_file
            &&& step is Unchanged <==> facts.is_file && same
            &&& step is Write <==> facts.is_file && !same
            &&& step matches IndexStep::Write { read_exif } ==> (read_exif <==> kind == "image"@)
        }),
        forall|path: Seq<char>| #[trigger]
            is_known(known, path, facts) == is_unchanged(known, path, facts),
{
}

/// What is written of a file is its own: clean path, name, extension in lower case, kind, size,
/// dates, the time of the import and what its photo tells.
pub proof fn row_tells_of_its_file(
    parts: PathParts,
    kind: Seq<char>,
    facts: FileFacts,
    photo: PhotoFacts,
    now: i64,
    row: IndexedMedia,
)
    requires
        row@ == media_row(parts, kind, facts, photo@, now),
    ensures
        row.path@ == clean_path(parts.text@),
        row.file_name@ == match parts.file_name {
            Some(name) => name@,
            None => Seq::empty(),
        },
        row.extension is Some <==> parts.extension is Some,
        row.extension is Some ==> row.extension->0@ == text::lower(parts.extension->0@),
        row.media_type@ == kind,
        row.size_bytes == Some(facts.size_bytes),
        row.created_at == facts.created_at,
        row.modified_at == facts.modified_at,
        row.imported_at == now,
        row.photo.captured_at == photo.captured_at,
        row.photo.latitude == photo.latitude,
        row.photo.longitude == photo.longitude,
        row.photo.make is Some <==> photo.make is Some,
        row.photo.make is Some ==> row.photo.make->0@ == photo.make->0@,
        row.photo.model is Some <==> photo.model is Some,
        row.photo.model is Some ==> row.photo.model->0@ == photo.model->0@,
        row.photo.lens_model is Some <==> photo.lens_model is Some,
        row.photo.lens_model is Some ==> row.photo.lens_model->0@ == photo.lens_model->0@,
{
    assert(row@.path == row.path@);
    assert(row@.extension == opt_view(row.extension));
    assert(row@.photo == row.photo@);
    assert(row.photo@.make == opt_view(row.photo.make) && photo@.make == opt_view(photo.make));
    assert(row.photo@.model == opt_view(row.photo.model) && photo@.model == opt_view(photo.model));
    assert(row.photo@.lens_model == opt_view(row.photo.lens_model) && photo@.lens_model
        == opt_view(photo.lens_model));
}

/// Every result counts as scanned, and as imported, as skipped or as neither: never as both.
pub proof fn result_counts_once(c: ScanCounts, outcome: IndexOutcome)
    ensures
        ({
            let after = counted(c, outcome);
            &&& after.scanned == c.scanned + 1
            &&& outcome is Stored ==> after.imported == c.imported + 1 && after.skipped == c.skipped
            &&& outcome is Skipped ==> after.skipped == c.skipped + 1 && after.imported == c.imported
            &&& outcome is Failed ==> after.imported == c.imported && after.skipped == c.skipped
        }),
{
}

/// The rows to mark as missing are those whose file is gone, in order, and no others.
pub proof fn every_gone_file_is_marked(rows: Seq<(i64, bool)>, n: nat)
    ensures
        ({
            let gone = positions(n, |i: int| !rows[i].1);
            &&& missing_ids(rows, n).len() == gone.len()
            &&& forall|m: int|
                0 <= m < gone.len() ==> #[trigger] missing_ids(rows, n)[m] == rows[gone[m]].0
        }),
    decreases n,
{
    if n > 0 {
        every_gone_file_is_marked(rows, (n - 1) as nat);
    }
}

/// Whether a key stands at a position for the first time: neither a root before nor an earlier
/// position of this one has it.
pub open spec fn is_first_of_its_key(keys: Seq<Seq<char>>, seen: Set<Seq<char>>) -> spec_fn(
    int,
) -> bool {
    |i: int| !seen.contains(keys[i]) && forall|j: int| 0 <= j < i ==> #[trigger] keys[j] != keys[i]
}

/// The files of a root that are taken up are those whose key comes for the first time, in order;
/// the total grows by as many.
pub proof fn every_first_file_is_taken_up(
    keys: Seq<Seq<char>>,
    seen: Set<Seq<char>>,
    n: nat,
    total: usize,
)
    requires
        n <= keys.len() <= usize::MAX,
    ensures
        ({
            let first = positions(n, is_first_of_its_key(keys, seen));
            &&& new_positions(keys, seen, n).len() == first.len()
            &&& forall|m: int|
                0 <= m < first.len() ==> #[trigger] new_positions(keys, seen, n)[m] == first[m]
        }),
        total_after(None, n) == Some(n as usize),
        total + n <= usize::MAX ==> total_after(Some(total), n) == Some((total + n) as usize),
    decreases n,
{
    if n > 0 {
        every_first_file_is_taken_up(keys, seen, (n - 1) as nat, total);
        let key = keys[n - 1];
        let before = keys.take(n - 1);
        if before.contains(key) {
            let j = choose|j: int| 0 <= j < before.len() && before[j] == key;
            assert(keys[j] == key);
        }
        if exists|j: int| 0 <= j < n - 1 && #[trigger] keys[j] == key {
            let j = choose|j: int| 0 <= j < n - 1 && #[trigger] keys[j] == key;
            assert(before[j] == key);
        }
    }
}

/// Progress is shown once in every run of `interval` results.
pub proof fn progress_is_shown_once_per_interval(results: int, interval: int, k: int)
    requires
        interval > 0,
        0 <= results,
        0 < k < interval,
    ensures
        shows_result(results * interval, interval),
        !shows_result(results * interval + k, interval),
        !shows_rest(results * interval, interval),
        shows_rest(results * interval + k, interval),
{
    vstd::arithmetic::div_mod::lemma_fundamental_div_mod_converse(
        results * interval,
        interval,
        results,
        0,
    );
    vstd::arithmetic::div_mod::lemma_fundamental_div_mod_converse(
        results * interval + k,
        interval,
        results,
        k,
    );
    assert(results * interval >= 0) by (nonlinear_arith)
        requires
            results >= 0,
            interval > 0,
    ;
}

/// An entry of a folder does one thing at most: a folder that is not left out is to be read, a
/// media file is taken while the limit allows and counted in any case, an entry that cannot be read
/// is noted, and anything else changes nothing.
pub proof fn entry_is_read_taken_or_noted<P>(d: DiscoveryView<P>, e: Listed<P>)
    ensures
        ({
            let (after, stop) = after_entry(d, e);
            &&& after.root == d.root && after.limit == d.limit && after.active == d.active
            &&& match e {
                Listed::Unreadable(message) => after.errors == d.errors.push(
                    "walk error under "@ + d.root + ": "@ + message@,
                ) && after.queue == d.queue && after.files == d.files && after.found == d.found
                    && !stop,
                Listed::Unknown => after == d && !stop,
                Listed::Entry(f, kind) => {
                    let folder = kind is Directory && !is_left_out(f.parts);
                    let media = kind is File && indexable(f.parts);
                    let full = d.limit is Some && d.found >= d.limit->0;
                    &&& after.errors == d.errors
                    &&& after.queue == if folder {
                        d.queue.push(f.path)
                    } else {
                        d.queue
                    }
                    &&& after.files == if media && !full {
                        d.files.push(f)
                    } else {
                        d.files
                    }
                    &&& after.found == if media {
                        d.found + 1
                    } else {
                        d.found
                    }
                    &&& stop == (media && full)
                },
            }
        }),
{
    if let Listed::Entry(f, kind) = e {
        paths_are_left_out_by_any_component(f.parts);
        only_media_is_taken_in(f.parts);
    }
}

/// A process that comes back changes its own slot alone, and one that is gone frees its own slot
/// alone.
pub proof fn slot_ends_alone<P>(slots: Seq<FaceSlot<P>>, i: int, p: P, k: int)
    requires
        0 <= i,
        0 <= k < slots.len(),
    ensures
        k != i ==> slots_after_return(slots, i, p)[k] == slots[k],
        k != i ==> slots_after_release(slots, i)[k] == slots[k],
        i < slots.len() ==> slots_after_return(slots, i, p).len() == slots.len(),
        slots_after_release(slots, i).len() == slots.len(),
        i < slots.len() ==> !slots_after_release(slots, i)[i].in_use && slots_after_release(
            slots,
            i,
        )[i].process is None,
        i >= slots.len() ==> slots_after_release(slots, i) == slots,
        i >= slots.len() ==> slots_after_return(slots, i, p).len() == i + 1 && forall|j: int|
            slots.len() <= j < i ==> !(#[trigger] slots_after_return(slots, i, p)[j]).in_use
                && slots_after_return(slots, i, p)[j].process is None,
{
}

/// A call that was answered gives its process back; a call that failed gives none back, and has a
/// message. The slot stays in use only where a process could not be started anew.
pub proof fn only_an_answered_call_gives_its_process_back(end: FaceCallEnd)
    ensures
        slot_fate(end) is Returned <==> end is Answered && text::trimmed(
            end->Answered_0@,
        ).len() > 0,
        slot_fate(end) is Held <==> end is RestartFailed,
        call_error(end) is None <==> slot_fate(end) is Returned,
        end matches FaceCallEnd::StartFailed(e) ==> call_error(end) == Some(e@),
        end matches FaceCallEnd::RestartFailed(e) ==> call_error(end) == Some(e@),
        end matches FaceCallEnd::StateUnknown(e) ==> call_error(end) == Some(
            "failed to check face sidecar status: "@ + e@,
        ),
        end matches FaceCallEnd::WriteFailed(e) ==> call_error(end) == Some(
            "failed to write face sidecar stdin: "@ + e@,
        ),
        end matches FaceCallEnd::ReadFailed(e) ==> call_error(end) == Some(
            "failed to read face sidecar stdout: "@ + e@,
        ),
        end is Answered && text::trimmed(end->Answered_0@).len() == 0 ==> call_error(end) == Some(
            "face sidecar exited without a response"@,
        ),
{
}

} // verus!
