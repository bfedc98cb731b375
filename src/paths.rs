//! File paths of recent files: final component, extension, icon and the
//! item that stands for a file.
use vstd::prelude::*;
use crate::app_info::{AppInfo, AppInfoView, ItemType, opt_view};
use crate::text::{chars_of, equals_lit, lower_of, lowercase, string_of_range};

verus! {

/// What `Path::file_name` gives for a path.
pub uninterp spec fn file_name_of(p: Seq<char>) -> Option<Seq<char>>;

/// Relies on `std::path::Path::file_name`: the final component of the
/// path, if it has one.
#[verifier::external_body]
fn path_file_name(p: &str) -> (r: Option<String>)
    ensures
        opt_view(r) == file_name_of(p@),
{
    match std::path::Path::new(p).file_name() {
        Some(n) => Some(n.to_string_lossy().into_owned()),
        None => None,
    }
}

/// The index of the last `.` in `s`, or -1.
pub open spec fn last_dot(s: Seq<char>) -> int
    decreases s.len(),
{
    if s.len() == 0 {
        -1
    } else if s.last() == '.' {
        s.len() - 1
    } else {
        last_dot(s.drop_last())
    }
}

/// The extension of a file name: what follows its last `.`, unless it has
/// no `.` past its first character.
pub open spec fn extension_of_name(n: Seq<char>) -> Option<Seq<char>> {
    let k = last_dot(n);
    if k <= 0 {
        None
    } else {
        Some(n.skip(k + 1))
    }
}

/// The extension of a path, as `Path::extension` gives it.
pub open spec fn extension_of(p: Seq<char>) -> Option<Seq<char>> {
    match file_name_of(p) {
        Some(n) => extension_of_name(n),
        None => None,
    }
}

/// The icon name for a file extension.
pub open spec fn icon_for_extension(e: Seq<char>) -> Seq<char> {
    if e == "pdf"@ {
        "application-pdf"@
    } else if e == "doc"@ || e == "docx"@ {
        "application-msword"@
    } else if e == "xls"@ || e == "xlsx"@ {
        "application-vnd.ms-excel"@
    } else if e == "ppt"@ || e == "pptx"@ {
        "application-vnd.ms-powerpoint"@
    } else if e == "png"@ || e == "jpg"@ || e == "jpeg"@ || e == "gif"@ || e == "bmp"@ || e
        == "tiff"@ {
        "image-x-generic"@
    } else if e == "mp3"@ || e == "wav"@ || e == "ogg"@ || e == "flac"@ {
        "audio-x-generic"@
    } else if e == "mp4"@ || e == "avi"@ || e == "mkv"@ || e == "mov"@ || e == "webm"@ {
        "video-x-generic"@
    } else if e == "zip"@ || e == "tar"@ || e == "gz"@ || e == "rar"@ || e == "7z"@ {
        "package-x-generic"@
    } else {
        "text-x-generic"@
    }
}

/// The icon of a path: none without an extension.
pub open spec fn icon_of_path(p: Seq<char>) -> Option<Seq<char>> {
    match extension_of(p) {
        Some(e) => Some(icon_for_extension(e)),
        None => None,
    }
}

/// The image extensions, in lower case.
pub open spec fn is_image_extension_spec(e: Seq<char>) -> bool {
    e == "png"@ || e == "jpg"@ || e == "jpeg"@ || e == "gif"@ || e == "bmp"@ || e == "tiff"@ || e
        == "webp"@ || e == "svg"@
}

/// The item that stands for a recent file, if its path has a final
/// component.
pub open spec fn recent_item_of(p: Seq<char>) -> Option<AppInfoView> {
    match file_name_of(p) {
        Some(n) => Some(
            AppInfoView {
                name: "📄 "@ + n,
                description: "Recent file: "@ + p,
                exec_command: seq![],
                icon: icon_of_path(p),
                categories: seq!["Recent"@],
                item_type: ItemType::RecentFile,
                file_path: Some(p),
            },
        ),
        None => None,
    }
}

/// The extension of a path.
pub fn path_extension(path: &str) -> (r: Option<String>)
    ensures
        opt_view(r) == extension_of(path@),
{
    match path_file_name(path) {
        None => None,
        Some(n) => {
            let v = chars_of(n.as_str());
            let mut k: usize = v.len();
            assert(v@.take(v@.len() as int) =~= v@);
            while k > 0 && v[k - 1] != '.'
                invariant
                    k <= v@.len(),
                    last_dot(v@) == last_dot(v@.take(k as int)),
                decreases k,
            {
                assert(v@.take(k as int).drop_last() =~= v@.take(k - 1));
                k = k - 1;
            }
            if k <= 1 {
                assert(k == 1 ==> v@.take(k as int).last() == '.');
                None
            } else {
                assert(v@.take(k as int).last() == '.');
                let e = string_of_range(&v, k, v.len());
                assert(v@.subrange(k as int, v@.len() as int) =~= v@.skip(k as int));
                Some(e)
            }
        },
    }
}

/// Whether a lower-case extension is one of an image file.
pub fn is_image_extension(e: &str) -> (r: bool)
    ensures
        r == is_image_extension_spec(e@),
{
    let v = chars_of(e);
    equals_lit(&v, "png") || equals_lit(&v, "jpg") || equals_lit(&v, "jpeg") || equals_lit(
        &v,
        "gif",
    ) || equals_lit(&v, "bmp") || equals_lit(&v, "tiff") || equals_lit(&v, "webp")
        || equals_lit(&v, "svg")
}

/// Whether the path names an image file, by its extension in any case.
pub fn is_image_file(path: &str) -> (r: bool)
    ensures
        r == (extension_of(path@) matches Some(e) && is_image_extension_spec(lower_of(e))),
{
    match path_extension(path) {
        Some(e) => is_image_extension(lowercase(e.as_str()).as_str()),
        None => false,
    }
}

/// The icon name for a file extension.
pub fn icon_for(e: &str) -> (r: String)
    ensures
        r@ == icon_for_extension(e@),
{
    let v = chars_of(e);
    if equals_lit(&v, "pdf") {
        "application-pdf".to_owned()
    } else if equals_lit(&v, "doc") || equals_lit(&v, "docx") {
        "application-msword".to_owned()
    } else if equals_lit(&v, "xls") || equals_lit(&v, "xlsx") {
        "application-vnd.ms-excel".to_owned()
    } else if equals_lit(&v, "ppt") || equals_lit(&v, "pptx") {
        "application-vnd.ms-powerpoint".to_owned()
    } else if equals_lit(&v, "png") || equals_lit(&v, "jpg") || equals_lit(&v, "jpeg")
        || equals_lit(&v, "gif") || equals_lit(&v, "bmp") || equals_lit(&v, "tiff") {
        "image-x-generic".to_owned()
    } else if equals_lit(&v, "mp3") || equals_lit(&v, "wav") || equals_lit(&v, "ogg")
        || equals_lit(&v, "flac") {
        "audio-x-generic".to_owned()
    } else if equals_lit(&v, "mp4") || equals_lit(&v, "avi") || equals_lit(&v, "mkv")
        || equals_lit(&v, "mov") || equals_lit(&v, "webm") {
        "video-x-generic".to_owned()
    } else if equals_lit(&v, "zip") || equals_lit(&v, "tar") || equals_lit(&v, "gz")
        || equals_lit(&v, "rar") || equals_lit(&v, "7z") {
        "package-x-generic".to_owned()
    } else {
        "text-x-generic".to_owned()
    }
}

/// The icon name for a file, by its extension; none without one.
pub fn get_file_icon(path: &str) -> (r: Option<String>)
    ensures
        opt_view(r) == icon_of_path(path@),
{
    match path_extension(path) {
        Some(e) => Some(icon_for(e.as_str())),
        None => None,
    }
}

/// The item that stands for a recent file: its name after a document
/// marker, a description that gives the path, the icon of its extension.
/// None where the path has no final component.
pub fn recent_file_item(path: &str) -> (r: Option<AppInfo>)
    ensures
        match r {
            Some(a) => recent_item_of(path@) == Some(a@),
            None => recent_item_of(path@) is None,
        },
{
    match path_file_name(path) {
        None => None,
        Some(n) => {
            let mut name = "📄 ".to_owned();
            name.append(n.as_str());
            let mut description = "Recent file: ".to_owned();
            description.append(path);
            let mut categories: Vec<String> = Vec::new();
            categories.push("Recent".to_owned());
            let item = AppInfo {
                name,
                description,
                exec_command: String::new(),
                icon: get_file_icon(path),
                categories,
                item_type: ItemType::RecentFile,
                file_path: Some(path.to_owned()),
            };
            assert(item.categories.deep_view() =~= seq!["Recent"@]);
            assert(item@.exec_command =~= Seq::<char>::empty());
            Some(item)
        },
    }
}

} // verus!
