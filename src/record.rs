//! The image record and its metadata block.

use vstd::prelude::*;

verus! {

/// Metadata read from a file's embedded tags; any field may be absent.
#[derive(Debug, Clone)]
pub struct ExifData {
    pub date: Option<i64>,
    pub make: Option<String>,
    pub model: Option<String>,
    pub width: Option<u32>,
    pub height: Option<u32>,
}

/// One scanned image file, with its validity pair (`size`, `modified_at`)
/// and the fingerprints derived from its bytes.
#[derive(Debug, Clone)]
pub struct ImageInfo {
    pub path: String,
    pub name: String,
    pub size: u64,
    pub created_at: i64,
    pub modified_at: i64,
    pub phash: Option<String>,
    pub sha1: Option<String>,
    pub exif: Option<ExifData>,
}

pub fn copy_text(s: &Option<String>) -> (r: Option<String>)
    ensures
        r == *s,
{
    match s {
        Some(t) => Some(t.clone()),
        None => None,
    }
}

impl ExifData {
    /// A field-for-field copy.
    pub fn duplicate(&self) -> (r: ExifData)
        ensures
            r == *self,
    {
        ExifData {
            date: self.date,
            make: copy_text(&self.make),
            model: copy_text(&self.model),
            width: self.width,
            height: self.height,
        }
    }
}

impl ImageInfo {
    /// A field-for-field copy.
    pub fn duplicate(&self) -> (r: ImageInfo)
        ensures
            r == *self,
    {
        let exif = match &self.exif {
            Some(e) => Some(e.duplicate()),
            None => None,
        };
        ImageInfo {
            path: self.path.clone(),
            name: self.name.clone(),
            size: self.size,
            created_at: self.created_at,
            modified_at: self.modified_at,
            phash: copy_text(&self.phash),
            sha1: copy_text(&self.sha1),
            exif,
        }
    }
}

} // verus!
