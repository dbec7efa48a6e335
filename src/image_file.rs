//! One image file: its path and what decoding it gave, and the palette that
//! is extracted from it, with a message for every way this can fail.

use vstd::prelude::*;
use crate::batch::{unique_paths, ScanEntry};
use crate::color::Color;
use crate::image::{format_of, stride_message, unsupported_message, DecodedImage, ImageTrait};
use crate::palette::{extract_palette, extract_spec, ExtractionError};

verus! {

/// Why an image file could not be decoded.
#[derive(Clone, Copy, Debug, PartialEq, Eq, Structural)]
pub enum OpenError {
    /// No file at the path.
    NotFound,
    /// The file could not be read or decoded.
    Unreadable,
}

/// An image file and the result of decoding it.
#[derive(Debug)]
pub struct ImageFile {
    pub file_path: String,
    pub image: Result<DecodedImage, OpenError>,
}

/// The message of a decoding failure.
pub open spec fn open_message(e: OpenError) -> Seq<char> {
    match e {
        OpenError::NotFound => "File not found.\nPlease be sure you provide the correct path!"@,
        OpenError::Unreadable => "Error while opening the file!"@,
    }
}

/// The message of an extraction failure.
pub open spec fn extraction_message(e: ExtractionError) -> Seq<char> {
    match e {
        ExtractionError::StrideMismatch => stride_message(),
        ExtractionError::NoData => "No pixel is left to extract colors from."@,
        ExtractionError::QuantizationFailed => "The colors of this image could not be extracted."@,
        ExtractionError::TooLarge => "The image is too large to extract colors from."@,
    }
}

/// The palette of a decoded image, or the message of what went wrong.
pub open spec fn image_colors_spec(
    image: DecodedImage,
    count: u8,
    excluded: Seq<Color>,
    reference: Option<Color>,
) -> Result<Seq<Color>, Seq<char>> {
    match format_of(image.color) {
        None => Err(unsupported_message(image.color)),
        Some(f) => match extract_spec(image.bytes@, f, excluded, count, reference) {
            Ok(palette) => Ok(palette),
            Err(e) => Err(extraction_message(e)),
        },
    }
}

/// The palette of a file, or the message of what went wrong.
pub open spec fn file_colors_spec(
    image: Result<DecodedImage, OpenError>,
    count: u8,
    excluded: Seq<Color>,
    reference: Option<Color>,
) -> Result<Seq<Color>, Seq<char>> {
    match image {
        Err(e) => Err(open_message(e)),
        Ok(img) => image_colors_spec(img, count, excluded, reference),
    }
}

/// The message of a decoding failure.
pub fn open_error_message(e: OpenError) -> (r: String)
    ensures
        r@ == open_message(e),
{
    match e {
        OpenError::NotFound => String::from_str(
            "File not found.\nPlease be sure you provide the correct path!",
        ),
        OpenError::Unreadable => String::from_str("Error while opening the file!"),
    }
}

/// The message of an extraction failure.
pub fn extraction_error_message(e: ExtractionError) -> (r: String)
    ensures
        r@ == extraction_message(e),
{
    match e {
        ExtractionError::StrideMismatch => String::from_str(
            "The image data does not hold a whole number of pixels.",
        ),
        ExtractionError::NoData => String::from_str("No pixel is left to extract colors from."),
        ExtractionError::QuantizationFailed => String::from_str(
            "The colors of this image could not be extracted.",
        ),
        ExtractionError::TooLarge => String::from_str(
            "The image is too large to extract colors from.",
        ),
    }
}

impl ImageFile {
    /// An image file at `file_path`, with what decoding it gave.
    pub fn new(file_path: String, image: Result<DecodedImage, OpenError>) -> (r: ImageFile)
        ensures
            r.file_path@ == file_path@,
            r.image == image,
    {
        ImageFile { file_path, image }
    }

    /// The palette of the decoded image: at most `nb_colors` distinct colors,
    /// near matches of `excluded_colors` left out, ordered by contrast with
    /// `bc_color` when one is given.
    pub fn get_colors_from_images(
        &self,
        nb_colors: u8,
        excluded_colors: &Vec<Color>,
        bc_color: Option<Color>,
    ) -> (r: Result<Vec<Color>, String>)
        requires
            self.image is Ok,
            2 <= nb_colors <= 10,
        ensures
            match image_colors_spec(self.image->Ok_0, nb_colors, excluded_colors@, bc_color) {
                Ok(palette) => r is Ok && r->Ok_0@ == palette,
                Err(message) => r is Err && r->Err_0@ == message,
            },
    {
        let image = match &self.image {
            Ok(image) => image,
            Err(_) => {
                return Err(String::from_str("Error while opening the file!"));
            },
        };
        let format = match image.color_format() {
            Ok(f) => f,
            Err(message) => {
                return Err(message);
            },
        };
        match extract_palette(&image.bytes, format, excluded_colors.as_slice(), nb_colors, bc_color) {
            Ok(palette) => Ok(palette),
            Err(e) => Err(extraction_error_message(e)),
        }
    }
}

/// The palette of one file of a batch, or the message of what went wrong:
/// a failure is reported for that file and never stops the batch.
pub fn get_extracted_colors(
    image_file: &ImageFile,
    nb_colors: u8,
    excluded_colors: &Vec<Color>,
    bc_color: Option<Color>,
) -> (r: Result<Vec<Color>, String>)
    requires
        2 <= nb_colors <= 10,
    ensures
        match file_colors_spec(image_file.image, nb_colors, excluded_colors@, bc_color) {
            Ok(palette) => r is Ok && r->Ok_0@ == palette,
            Err(message) => r is Err && r->Err_0@ == message,
        },
{
    match &image_file.image {
        Err(e) => Err(open_error_message(*e)),
        Ok(_) => image_file.get_colors_from_images(nb_colors, excluded_colors, bc_color),
    }
}

/// `e` is the batch entry of `file`: its path, and its palette or the
/// message of what went wrong.
pub open spec fn is_entry_of(
    e: ScanEntry,
    file: ImageFile,
    count: u8,
    excluded: Seq<Color>,
    reference: Option<Color>,
) -> bool {
    &&& e.path@ == file.file_path@
    &&& match file_colors_spec(file.image, count, excluded, reference) {
        Ok(palette) => e.colors is Ok && e.colors->Ok_0@ == palette,
        Err(message) => e.colors is Err && e.colors->Err_0@ == message,
    }
}

/// The batch entry of one file: its path with its palette, or the message of
/// what went wrong.
pub fn extract_entry(
    image_file: ImageFile,
    nb_colors: u8,
    excluded_colors: &Vec<Color>,
    bc_color: Option<Color>,
) -> (r: ScanEntry)
    requires
        2 <= nb_colors <= 10,
    ensures
        is_entry_of(r, image_file, nb_colors, excluded_colors@, bc_color),
{
    let colors = get_extracted_colors(&image_file, nb_colors, excluded_colors, bc_color);
    ScanEntry { path: image_file.file_path, colors }
}

/// A batch reports every file on its own: the entries of files with distinct
/// paths have distinct paths, so collecting them keeps one entry per file; a
/// file that could not be decoded gets an error, and a file whose palette can
/// be extracted gets it.
pub proof fn lemma_batch_reports_every_file(
    files: Seq<ImageFile>,
    entries: Seq<ScanEntry>,
    count: u8,
    excluded: Seq<Color>,
    reference: Option<Color>,
)
    requires
        entries.len() == files.len(),
        forall|i: int, j: int|
            0 <= i < files.len() && 0 <= j < files.len() && i != j ==> (#[trigger] files[i]).file_path@
                != (#[trigger] files[j]).file_path@,
        forall|k: int|
            0 <= k < files.len() ==> is_entry_of(
                #[trigger] entries[k],
                files[k],
                count,
                excluded,
                reference,
            ),
    ensures
        unique_paths(entries),
        forall|k: int|
            0 <= k < files.len() && (#[trigger] files[k]).image is Err ==> entries[k].colors is Err,
        forall|k: int|
            0 <= k < files.len() && (#[trigger] files[k]).image is Ok && image_colors_spec(
                files[k].image->Ok_0,
                count,
                excluded,
                reference,
            ) is Ok ==> entries[k].colors is Ok,
{
    assert forall|i: int, j: int|
        0 <= i < entries.len() && 0 <= j < entries.len() && i != j implies (#[trigger] entries[i]).path@
        != (#[trigger] entries[j]).path@ by {
        assert(is_entry_of(entries[i], files[i], count, excluded, reference));
        assert(is_entry_of(entries[j], files[j], count, excluded, reference));
    }
    assert forall|k: int|
        0 <= k < files.len() && (#[trigger] files[k]).image is Err implies entries[k].colors is Err by {
        assert(is_entry_of(entries[k], files[k], count, excluded, reference));
    }
    assert forall|k: int|
        0 <= k < files.len() && (#[trigger] files[k]).image is Ok && image_colors_spec(
            files[k].image->Ok_0,
            count,
            excluded,
            reference,
        ) is Ok implies entries[k].colors is Ok by {
        assert(is_entry_of(entries[k], files[k], count, excluded, reference));
    }
}

} // verus!
