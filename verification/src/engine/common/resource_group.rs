use vstd::prelude::*;
use crate::engine::common::file_manipulation::{
    FileError, FileStatus, accessible, is_error_for, verify_accessible_file,
};

verus! {

/// Encapsulates a group of shaders as a set of paths to the individual shader source files.
#[derive(Debug, Clone, PartialEq, Eq, Hash)]
pub struct ShaderGroup {
    /// Holds the path to the vertex shader.
    pub vertex: String,
    /// Holds the path to the fragment shader.
    pub fragment: String,
    /// Optionally holds the path to the geometry shader.
    pub geometry: Option<String>,
}

/// Encapsulates a group of textures as a set of paths to the individual texture files.
#[derive(Debug, Clone, PartialEq, Eq, Hash)]
pub struct TextureGroup {
    /// Optionally holds the path to the diffuse texture file.
    pub diffuse: Option<String>,
    /// Optionally holds the path to the normal map file.
    pub normal: Option<String>,
}

/// The errors that can arise when loading resources.
#[derive(Debug, Clone, PartialEq, Eq)]
pub enum ResourceError {
    /// A resource file is not accessible or could not be read.
    FileError(FileError),
    /// A texture could not be created; holds the message of the underlying error.
    TextureCreationError(String),
    /// A font could not be read; holds what was wrong with its data.
    FontError(FontFault),
}

/// What can be wrong with font data.
#[derive(Debug, Clone, Copy, PartialEq, Eq, Structural)]
pub enum FontFault {
    /// The data is not in a format that the font parser recognizes.
    UnrecognizedFormat,
    /// The data is ill-formed (it lacks necessary tables, for example).
    IllFormed,
    /// The collection has no font at the requested index.
    CollectionIndexOutOfBounds,
    /// The collection holds more than one font.
    CollectionContainsMultipleFonts,
}

/// `true` if `r` failed with the error that reports the inaccessible `file`.
pub open spec fn reports<T>(r: Result<T, ResourceError>, file: FileStatus) -> bool {
    r matches Err(ResourceError::FileError(e)) && is_error_for(e, file)
}

/// `true` if the optional path is absent or accessible.
pub open spec fn optional_accessible(file: Option<&FileStatus>) -> bool {
    file matches Some(f) ==> accessible(*f)
}

/// The path that an optional probed file contributes to a group.
pub open spec fn optional_path(file: Option<&FileStatus>) -> Option<Seq<char>> {
    match file {
        Some(f) => Some(f.path@),
        None => None,
    }
}

/// The view of an optional path held by a group.
pub open spec fn optional_view(path: Option<String>) -> Option<Seq<char>> {
    match path {
        Some(p) => Some(p@),
        None => None,
    }
}

fn check_optional(file: Option<&FileStatus>) -> (r: Result<Option<String>, ResourceError>)
    ensures
        r is Ok <==> optional_accessible(file),
        !optional_accessible(file) ==> reports(r, *file.unwrap()),
        r matches Ok(p) ==> optional_view(p) == optional_path(file),
{
    match file {
        Some(f) => match verify_accessible_file(f) {
            Ok(()) => Ok(Some(f.path.clone())),
            Err(e) => Err(ResourceError::FileError(e)),
        },
        None => Ok(None),
    }
}

impl ShaderGroup {
    /// Creates a new `ShaderGroup` while ensuring the existence of the specified shader source
    /// files, checked in the order vertex, fragment, geometry.
    pub fn new(vertex: &FileStatus, fragment: &FileStatus, geometry: Option<&FileStatus>) -> (r:
        Result<Self, ResourceError>)
        ensures
            r is Ok <==> accessible(*vertex) && accessible(*fragment) && optional_accessible(
                geometry,
            ),
            !accessible(*vertex) ==> reports(r, *vertex),
            accessible(*vertex) && !accessible(*fragment) ==> reports(r, *fragment),
            accessible(*vertex) && accessible(*fragment) && !optional_accessible(geometry)
                ==> reports(r, *geometry.unwrap()),
            r matches Ok(g) ==> g.vertex@ == vertex.path@ && g.fragment@ == fragment.path@
                && optional_view(g.geometry) == optional_path(geometry),
    {
        if let Err(e) = verify_accessible_file(vertex) {
            return Err(ResourceError::FileError(e));
        }
        if let Err(e) = verify_accessible_file(fragment) {
            return Err(ResourceError::FileError(e));
        }
        let geometry = match check_optional(geometry) {
            Ok(g) => g,
            Err(e) => { return Err(e); },
        };
        Ok(ShaderGroup { vertex: vertex.path.clone(), fragment: fragment.path.clone(), geometry })
    }
}

impl TextureGroup {
    /// Creates a new `TextureGroup` while ensuring the existence of the specified texture files,
    /// checked in the order diffuse, normal.
    pub fn new(diffuse: Option<&FileStatus>, normal: Option<&FileStatus>) -> (r: Result<
        Self,
        ResourceError,
    >)
        ensures
            r is Ok <==> optional_accessible(diffuse) && optional_accessible(normal),
            !optional_accessible(diffuse) ==> reports(r, *diffuse.unwrap()),
            optional_accessible(diffuse) && !optional_accessible(normal) ==> reports(
                r,
                *normal.unwrap(),
            ),
            r matches Ok(g) ==> optional_view(g.diffuse) == optional_path(diffuse)
                && optional_view(g.normal) == optional_path(normal),
    {
        let diffuse = match check_optional(diffuse) {
            Ok(d) => d,
            Err(e) => { return Err(e); },
        };
        let normal = match check_optional(normal) {
            Ok(n) => n,
            Err(e) => { return Err(e); },
        };
        Ok(TextureGroup { diffuse, normal })
    }

    /// Creates a new, empty `TextureGroup` that does not contain any textures.
    pub fn empty() -> (g: Self)
        ensures
            g.diffuse is None,
            g.normal is None,
    {
        TextureGroup { diffuse: None, normal: None }
    }
}

} // verus!
