//! What the reader supplies to a registry of observed images, and the
//! decision that registering a file comes down to.
//!
//! The persistence itself (a relational store keyed by image GUID and
//! filename) lives outside the library; the library gathers the facts an
//! insertion needs from the file's bytes, and decides, from what the store
//! already knows, which outcome registering reports.

use crate::segment::spec_metadata_tree;
use crate::segment::FileHeader;
use crate::segment::FileHeaderV;
use crate::segment::Guid;
use crate::xml::spec_drill;
use crate::zisraw::spec_metadata_of;
use crate::zisraw::spec_thumbnail_of;
use crate::zisraw::spec_timestamp_text_of;
use crate::Error;
use vstd::prelude::*;

verus! {

/// How registering a file ends: the image was inserted; the image was
/// already known under the listed file names; or this very file was
/// already registered.
pub enum RegisterSuccess {
    Inserted,
    ImageExists(Vec<String>),
    FileExists,
}

/// Which outcome registering a file reports, given what the store already
/// knows: a known file wins over a known image, and a new image is
/// inserted.
pub fn register_outcome(file_known: bool, image_known: bool, known_filenames: Vec<String>) -> (r:
    RegisterSuccess)
    ensures
        file_known ==> r is FileExists,
        !file_known && image_known ==> (r matches RegisterSuccess::ImageExists(v) && v
            == known_filenames),
        !file_known && !image_known ==> r is Inserted,
{
    if file_known {
        RegisterSuccess::FileExists
    } else if image_known {
        RegisterSuccess::ImageExists(known_filenames)
    } else {
        RegisterSuccess::Inserted
    }
}

/// The original file name the metadata XML records, under
/// `Experiment/ImageName`.
pub open spec fn spec_original_name_of(f: Seq<u8>, h: FileHeaderV) -> Option<Seq<char>> {
    match spec_metadata_of(f, h) {
        Some(m) => match spec_metadata_tree(m.source) {
            Some(tree) => match spec_drill(tree, seq!["Experiment"@, "ImageName"@]) {
                Some(e) => e.spec_text(),
                None => None,
            },
            None => None,
        },
        None => None,
    }
}

/// Everything an insertion into the registry needs, gathered from one
/// file: the image's GUID, the primary file's GUID where this file is not
/// the primary, the file part, the acquisition timestamp as epoch
/// seconds, the recorded original name, the raw metadata XML, and the
/// thumbnail's content type and bytes where the file has one.
pub struct ImageRecord {
    pub guid: Guid,
    pub parent_guid: Option<Guid>,
    pub file_part: i32,
    pub timestamp_seconds: i64,
    pub original_name: String,
    pub metadata_xml: String,
    pub thumbnail_type: Option<String>,
    pub thumbnail: Option<Vec<u8>>,
}

/// Copy of a byte vector.
fn copy_bytes(v: &Vec<u8>) -> (r: Vec<u8>)
    ensures
        r@ == v@,
{
    let mut r: Vec<u8> = Vec::new();
    let mut i: usize = 0;
    while i < v.len()
        invariant
            i <= v@.len(),
            r@ == v@.subrange(0, i as int),
        decreases v@.len() - i,
    {
        r.push(v[i]);
        proof {
            assert(r@ =~= v@.subrange(0, i + 1));
        }
        i = i + 1;
    }
    proof {
        assert(r@ =~= v@);
    }
    r
}

/// Gather the facts an insertion needs from one file. Fails when the
/// metadata, the original name, the timestamp or the thumbnail cannot be
/// had; a file without a thumbnail is fine.
pub fn image_record(hd: &FileHeader, file: &Vec<u8>) -> (r: Result<ImageRecord, Error>)
    ensures
        r is Ok ==> ({
            let rec = r->Ok_0;
            &&& rec.guid == hd@.FileGuid
            &&& rec.parent_guid == (if hd@.PrimaryFileGuid == hd@.FileGuid {
                None::<Guid>
            } else {
                Some(hd@.PrimaryFileGuid)
            })
            &&& rec.file_part == hd@.FilePart
            &&& Some(rec.original_name@) == spec_original_name_of(file@, hd@)
            &&& (spec_metadata_of(file@, hd@) matches Some(m) && rec.metadata_xml@ == m.source)
            &&& spec_timestamp_text_of(file@, hd@) is Some
            &&& match spec_thumbnail_of(file@, hd@) {
                Some(Some(av)) => {
                    &&& (rec.thumbnail_type matches Some(t) && t@ == av.Entry.ContentFileType)
                    &&& (rec.thumbnail matches Some(b) && av.DataPos + av.DataSize
                        <= file@.len() && b@ == file@.subrange(
                        av.DataPos,
                        av.DataPos + av.DataSize,
                    ))
                },
                Some(None) => rec.thumbnail_type is None && rec.thumbnail is None,
                None => false,
            }
        }),
        spec_original_name_of(file@, hd@) is None ==> r is Err,
        spec_timestamp_text_of(file@, hd@) is None ==> r is Err,
        spec_thumbnail_of(file@, hd@) is None ==> r is Err,
        r is Err ==> ({
            let good = spec_original_name_of(file@, hd@) is Some && spec_timestamp_text_of(
                file@,
                hd@,
            ) is Some && (match spec_thumbnail_of(file@, hd@) {
                Some(Some(av)) => av.DataPos + av.DataSize <= file@.len(),
                Some(None) => true,
                None => false,
            });
            &&& !r->Err_0.is_backwards_skip()
            &&& (good ==> r->Err_0.is_parse())
            &&& (r->Err_0.is_parse() ==> spec_timestamp_text_of(file@, hd@) is Some)
        }),
{
    let mut metadata = hd.get_metadata(file)?;
    let metadata_xml = metadata.cache.source.clone();
    let tree = metadata.as_tree()?;
    let name_path = ["Experiment", "ImageName"];
    proof {
        assert(name_path@.map_values(|p: &str| p@) =~= seq!["Experiment"@, "ImageName"@]);
    }
    let name_el = tree.drill_down(&name_path)?;
    let original_name = match name_el.get_text() {
        Some(t) => t.clone(),
        None => {
            return Err(Error::Format("the recorded image name has no text".to_owned()));
        },
    };
    let parent_guid = if hd.PrimaryFileGuid == hd.FileGuid {
        None
    } else {
        Some(hd.PrimaryFileGuid)
    };
    let timestamp = hd.get_timestamp(file)?;
    let mut thumbnail_type: Option<String> = None;
    let mut thumbnail: Option<Vec<u8>> = None;
    match hd.get_thumbnail(file)? {
        Some(mut a) => {
            let bytes = a.Data.get(file)?;
            thumbnail = Some(copy_bytes(bytes));
            thumbnail_type = Some(a.Entry.ContentFileType.clone());
        },
        None => {},
    }
    Ok(
        ImageRecord {
            guid: hd.FileGuid,
            parent_guid,
            file_part: hd.FilePart,
            timestamp_seconds: timestamp.timestamp_seconds(),
            original_name,
            metadata_xml,
            thumbnail_type,
            thumbnail,
        },
    )
}

} // verus!
