//! Selection of the image files of a directory walk: a file is kept when its
//! name carries an image extension and matches the caller's pattern.

use vstd::prelude::*;

verus! {

#[verifier::external_type_specification]
#[verifier::external_body]
pub struct ExRegex(regex::Regex);

#[verifier::external_type_specification]
#[verifier::external_body]
pub struct ExRegexError(regex::Error);

/// Whether `regex::Regex::new` accepts a pattern.
pub uninterp spec fn regex_compiles(pattern: Seq<char>) -> bool;

/// Whether the regex compiled from `pattern` matches somewhere in `text`.
pub uninterp spec fn regex_matches(pattern: Seq<char>, text: Seq<char>) -> bool;

/// Relies on `regex::Regex::new`: it compiles a pattern or reports an error,
/// and whether it succeeds depends on the pattern alone.
#[verifier::external_body]
fn compile_regex(pattern: &str) -> (r: Result<regex::Regex, regex::Error>)
    ensures
        r is Ok <==> regex_compiles(pattern@),
{
    regex::Regex::new(pattern)
}

/// Relies on `regex::Regex::is_match`: true when the regex matches anywhere
/// in `text`. The regex of a `FilePattern` is compiled from its own source,
/// so the answer depends on that source and `text` alone.
#[verifier::external_body]
fn regex_is_match(p: &FilePattern, text: &str) -> (r: bool)
    ensures
        r == regex_matches(p.source(), text@),
{
    p.compiled.is_match(text)
}

/// A caller's file-name pattern, compiled.
pub struct FilePattern {
    source: String,
    compiled: regex::Regex,
}

/// Errors of a directory scan.
#[derive(Clone, Copy, Debug, PartialEq, Eq, Structural)]
pub enum ScanError {
    /// The caller's pattern does not compile.
    InvalidPattern,
    /// The directory does not exist.
    NotFound,
    /// The directory may not be read.
    PermissionDenied,
    /// The directory could not be read for another reason.
    Unreadable,
}

/// Why a directory could not be read.
#[derive(Clone, Copy, Debug, PartialEq, Eq, Structural)]
pub enum DirError {
    NotFound,
    PermissionDenied,
    Other,
}

/// One entry of a directory walk.
#[derive(Clone, Debug)]
pub struct WalkEntry {
    /// The entry's path as text.
    pub path: String,
    /// The last component of the path, when it is valid UTF-8.
    pub file_name: Option<String>,
    /// Whether the entry is a regular file.
    pub is_file: bool,
}

impl FilePattern {
    /// The pattern's text.
    pub closed spec fn source(&self) -> Seq<char> {
        self.source@
    }

    /// Compiles `source`; fails exactly when the regex crate rejects it.
    pub fn new(source: &str) -> (r: Result<FilePattern, ScanError>)
        ensures
            r is Ok <==> regex_compiles(source@),
            r is Ok ==> r->Ok_0.source() == source@,
            r is Err ==> r == Err::<FilePattern, ScanError>(ScanError::InvalidPattern),
    {
        match compile_regex(source) {
            Ok(compiled) => Ok(FilePattern { source: String::from_str(source), compiled }),
            Err(_) => Err(ScanError::InvalidPattern),
        }
    }

    /// Whether the pattern matches somewhere in `text`.
    pub fn is_match(&self, text: &str) -> (r: bool)
        ensures
            r == regex_matches(self.source(), text@),
    {
        regex_is_match(self, text)
    }
}

/// The pattern a file name must match to count as an image: a dot followed
/// by png, jpg, jpeg, gif, bmp, ico, tiff, webp, avif, pnm, dds or tga, in
/// any case.
pub open spec fn image_extension_pattern() -> Seq<char> {
    "(?i)\\.(png|jpe?g|gif|bmp|ico|tiff|webp|avif|pnm|dds|tga)"@
}

/// The pattern whose `link` group is a path or link cut after its image
/// extension.
pub open spec fn image_link_pattern() -> Seq<char> {
    "(?P<link>.*(?i)\\.(png|jpe?g|gif|bmp|ico|tiff|webp|avif|pnm|dds|tga))"@
}

/// The text of group `group` in the first match of `pattern` in `text`.
pub uninterp spec fn regex_group(pattern: Seq<char>, group: Seq<char>, text: Seq<char>) -> Option<
    Seq<char>,
>;

/// Relies on `regex::Regex::captures` and `Captures::name`: the text of the
/// named group in the first match, or `None` when there is no match or the
/// group took no part in it. The regex of a `FilePattern` is compiled from its
/// own source, so the answer depends on that source, the group and `text`.
#[verifier::external_body]
fn regex_capture(p: &FilePattern, group: &str, text: &str) -> (r: Option<String>)
    ensures
        match regex_group(p.source(), group@, text@) {
            None => r is None,
            Some(g) => r is Some && r->0@ == g,
        },
{
    p.compiled.captures(text).and_then(|c| c.name(group)).map(|m| m.as_str().to_string())
}

impl FilePattern {
    /// The pattern of image file names.
    pub fn images() -> (r: Result<FilePattern, ScanError>)
        ensures
            r is Ok <==> regex_compiles(image_extension_pattern()),
            r is Ok ==> r->Ok_0.source() == image_extension_pattern(),
            r is Err ==> r == Err::<FilePattern, ScanError>(ScanError::InvalidPattern),
    {
        FilePattern::new("(?i)\\.(png|jpe?g|gif|bmp|ico|tiff|webp|avif|pnm|dds|tga)")
    }

    /// The text of group `group` in the first match of the pattern in `text`.
    pub fn capture(&self, group: &str, text: &str) -> (r: Option<String>)
        ensures
            match regex_group(self.source(), group@, text@) {
                None => r is None,
                Some(g) => r is Some && r->0@ == g,
            },
    {
        regex_capture(self, group, text)
    }
}

/// The image part of a path or link: the text up to the end of its last image
/// extension on the line of the first one; `None` when there is none.
pub fn image_link(path: &str) -> (r: Option<String>)
    ensures
        !regex_compiles(image_link_pattern()) ==> r is None,
        regex_compiles(image_link_pattern()) ==> match regex_group(
            image_link_pattern(),
            "link"@,
            path@,
        ) {
            None => r is None,
            Some(g) => r is Some && r->0@ == g,
        },
{
    match FilePattern::new(
        "(?P<link>.*(?i)\\.(png|jpe?g|gif|bmp|ico|tiff|webp|avif|pnm|dds|tga))",
    ) {
        Ok(p) => p.capture("link", path),
        Err(_) => None,
    }
}

/// The entry is a file whose name matches `images` and `pattern`, when
/// there is one.
pub open spec fn is_selected(e: WalkEntry, images: Seq<char>, pattern: Option<Seq<char>>) -> bool {
    &&& e.is_file
    &&& e.file_name is Some
    &&& regex_matches(images, e.file_name->0@)
    &&& match pattern {
        None => true,
        Some(p) => regex_matches(p, e.file_name->0@),
    }
}

/// The paths of the selected entries, in walk order.
pub open spec fn selected_paths(
    entries: Seq<WalkEntry>,
    images: Seq<char>,
    pattern: Option<Seq<char>>,
) -> Seq<Seq<char>>
    decreases entries.len(),
{
    if entries.len() == 0 {
        seq![]
    } else {
        let prev = selected_paths(entries.drop_last(), images, pattern);
        if is_selected(entries.last(), images, pattern) {
            prev.push(entries.last().path@)
        } else {
            prev
        }
    }
}

/// The source of an optional pattern.
pub open spec fn source_of(pattern: Option<&FilePattern>) -> Option<Seq<char>> {
    match pattern {
        None => None,
        Some(p) => Some(p.source()),
    }
}

/// Whether the walk entry is selected.
fn entry_selected(e: &WalkEntry, images: &FilePattern, pattern: Option<&FilePattern>) -> (r: bool)
    ensures
        r == is_selected(*e, images.source(), source_of(pattern)),
{
    if !e.is_file {
        return false;
    }
    match &e.file_name {
        None => false,
        Some(name) => {
            if !images.is_match(name.as_str()) {
                return false;
            }
            match pattern {
                None => true,
                Some(p) => p.is_match(name.as_str()),
            }
        },
    }
}

/// The paths of the walk entries that are files whose name matches `images`
/// and `pattern`, when there is one, in walk order.
pub fn select_image_files(
    entries: &Vec<WalkEntry>,
    images: &FilePattern,
    pattern: Option<&FilePattern>,
) -> (r: Vec<String>)
    ensures
        r@.len() == selected_paths(entries@, images.source(), source_of(pattern)).len(),
        forall|i: int|
            0 <= i < r@.len() ==> #[trigger] r@[i]@ == selected_paths(
                entries@,
                images.source(),
                source_of(pattern),
            )[i],
{
    let ghost src = source_of(pattern);
    let ghost img = images.source();
    let mut out: Vec<String> = Vec::new();
    let mut i: usize = 0;
    while i < entries.len()
        invariant
            i <= entries@.len(),
            src == source_of(pattern),
            img == images.source(),
            out@.len() == selected_paths(entries@.subrange(0, i as int), img, src).len(),
            forall|j: int|
                0 <= j < out@.len() ==> #[trigger] out@[j]@ == selected_paths(
                    entries@.subrange(0, i as int),
                    img,
                    src,
                )[j],
        decreases entries@.len() - i,
    {
        let e = &entries[i];
        assert(entries@.subrange(0, i + 1).drop_last() =~= entries@.subrange(0, i as int));
        assert(entries@.subrange(0, i + 1).last() == entries@[i as int]);
        if entry_selected(e, images, pattern) {
            out.push(e.path.clone());
        }
        i = i + 1;
    }
    assert(entries@.subrange(0, entries@.len() as int) =~= entries@);
    out
}

/// The image files of a directory walk. `regex_pattern` is the caller's
/// file-name pattern, if any; `listing` is the walk, or why the directory
/// could not be read. A pattern that does not compile is reported first.
pub fn get_matching_files(regex_pattern: Option<&str>, listing: &Result<Vec<WalkEntry>, DirError>) -> (r:
    Result<Vec<String>, ScanError>)
    ensures
        match regex_pattern {
            Some(p) => !regex_compiles(p@),
            None => false,
        } || !regex_compiles(image_extension_pattern()) ==> r == Err::<Vec<String>, ScanError>(
            ScanError::InvalidPattern,
        ),
        match regex_pattern {
            Some(p) => regex_compiles(p@),
            None => true,
        } && regex_compiles(image_extension_pattern()) ==> match listing {
            Err(DirError::NotFound) => r == Err::<Vec<String>, ScanError>(ScanError::NotFound),
            Err(DirError::PermissionDenied) => r == Err::<Vec<String>, ScanError>(
                ScanError::PermissionDenied,
            ),
            Err(DirError::Other) => r == Err::<Vec<String>, ScanError>(ScanError::Unreadable),
            Ok(entries) => {
                let sel = selected_paths(
                    entries@,
                    image_extension_pattern(),
                    match regex_pattern {
                        None => None,
                        Some(p) => Some(p@),
                    },
                );
                &&& r is Ok
                &&& r->Ok_0@.len() == sel.len()
                &&& forall|i: int| 0 <= i < sel.len() ==> #[trigger] r->Ok_0@[i]@ == sel[i]
            },
        },
{
    let compiled = match regex_pattern {
        None => None,
        Some(p) => match FilePattern::new(p) {
            Ok(fp) => Some(fp),
            Err(e) => {
                return Err(e);
            },
        },
    };
    let images = match FilePattern::images() {
        Ok(fp) => fp,
        Err(e) => {
            return Err(e);
        },
    };
    match listing {
        Err(DirError::NotFound) => Err(ScanError::NotFound),
        Err(DirError::PermissionDenied) => Err(ScanError::PermissionDenied),
        Err(DirError::Other) => Err(ScanError::Unreadable),
        Ok(entries) => {
            let pattern = match &compiled {
                None => None,
                Some(fp) => Some(fp),
            };
            Ok(select_image_files(entries, &images, pattern))
        },
    }
}

} // verus!
