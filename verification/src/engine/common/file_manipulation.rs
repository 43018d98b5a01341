use vstd::prelude::*;

verus! {

/// What a look at the file system reported about a path: whether something exists there, and
/// whether that something is a regular file.
#[derive(Debug, Clone, PartialEq, Eq)]
pub struct FileStatus {
    /// The path as it is displayed.
    pub path: String,
    /// `true` if the path points at an existing entry.
    pub exists: bool,
    /// `true` if the path points at a regular file.
    pub is_file: bool,
}

impl FileStatus {
    /// Bundles the result of probing a path.
    pub fn new(path: &str, exists: bool, is_file: bool) -> (s: Self)
        ensures
            s.path@ == path@,
            s.exists == exists,
            s.is_file == is_file,
    {
        FileStatus { path: path.to_owned(), exists, is_file }
    }
}

/// The errors that can arise when accessing files.
#[derive(Debug, Clone, PartialEq, Eq)]
pub enum FileError {
    /// No such file or directory.
    FileNotFound(String),
    /// The path exists, but is not a file.
    NotAFile(String),
    /// An image buffer could not be created from raw texture data.
    CannotCreateImageFromRaw,
    /// Reading or writing failed; holds the message of the underlying error.
    IoError(String),
    /// Decoding or encoding an image failed; holds the message of the underlying error.
    ImageError(String),
}

/// `true` if the probed path exists and is a regular file.
pub open spec fn accessible(file: FileStatus) -> bool {
    file.exists && file.is_file
}

/// `true` if `e` is the error that an inaccessible path is reported with: `FileNotFound` where
/// nothing exists, `NotAFile` where something that is not a file exists, each with the path.
pub open spec fn is_error_for(e: FileError, file: FileStatus) -> bool {
    if !file.exists {
        e matches FileError::FileNotFound(p) && p@ == file.path@
    } else {
        !file.is_file && (e matches FileError::NotAFile(p) && p@ == file.path@)
    }
}

/// Verifies that the specified path is a file, and that it is accessible by the user (i.e. it
/// exists and the current user has access permissions).
pub fn verify_accessible_file(file: &FileStatus) -> (r: Result<(), FileError>)
    ensures
        r is Ok <==> accessible(*file),
        r matches Err(e) ==> is_error_for(e, *file),
{
    if !file.exists {
        Err(FileError::FileNotFound(file.path.clone()))
    } else if !file.is_file {
        Err(FileError::NotAFile(file.path.clone()))
    } else {
        Ok(())
    }
}

/// An RGBA image: its width and height in pixels and four bytes per pixel, row by row.
#[derive(Debug, Clone, PartialEq, Eq)]
pub struct RawRgba {
    pub width: u32,
    pub height: u32,
    pub data: Vec<u8>,
}

/// Calls `ImageBuffer::<Rgba<u8>, Vec<u8>>::from_raw`: it accepts the data where it holds at
/// least four bytes per pixel (its source compares `width * height * 4` with the length) and
/// keeps the dimensions and the data as they are.
#[verifier::external_body]
fn rgba_buffer_from_raw(width: u32, height: u32, data: Vec<u8>) -> (r: Option<RawRgba>)
    requires
        4 * width * height <= usize::MAX,
    ensures
        r is None <==> data@.len() < 4 * width * height,
        r matches Some(i) ==> i.width == width && i.height == height && i.data@ == data@,
{
    match image::ImageBuffer::<image::Rgba<u8>, Vec<u8>>::from_raw(width, height, data) {
        Some(b) => Some(RawRgba { width: b.width(), height: b.height(), data: b.into_raw() }),
        None => None,
    }
}

/// Creates an RGBA image from raw pixel data of the given dimensions; the data must hold at
/// least four bytes per pixel, else `CannotCreateImageFromRaw`.
pub fn image_from_raw(width: u32, height: u32, data: Vec<u8>) -> (r: Result<RawRgba, FileError>)
    requires
        4 * width * height <= usize::MAX,
    ensures
        r is Err <==> data@.len() < 4 * width * height,
        r matches Err(e) ==> e == FileError::CannotCreateImageFromRaw,
        r matches Ok(i) ==> i.width == width && i.height == height && i.data@ == data@,
{
    match rgba_buffer_from_raw(width, height, data) {
        Some(i) => Ok(i),
        None => Err(FileError::CannotCreateImageFromRaw),
    }
}

} // verus!
