//! The facade over a parsed file header: locating and returning the
//! directory, the metadata, the attachment list, the thumbnail, and the
//! derived image description.
//!
//! Every operation takes the file's bytes and works from the positions the
//! header records. Each result is pinned to a specification function of
//! the header and the bytes, so repeated reads of the same file yield
//! equal results.

use crate::segment::spec_metadata_tree;
use crate::segment::spec_segment;
use crate::segment::spec_segment_err_format;
use crate::segment::spec_segment_err_io;
use crate::segment::spec_segment_ok;
use crate::segment::Attachment;
use crate::segment::AttachmentEntryA1;
use crate::segment::AttachmentEntryV;
use crate::segment::Directory;
use crate::segment::DirectoryV;
use crate::segment::FileHeader;
use crate::segment::FileHeaderV;
use crate::segment::Metadata;
use crate::segment::MetadataV;
use crate::segment::AttachmentV;
use crate::segment::Segment;
use crate::segment::SegmentBlock;
use crate::segment::SegmentBlockV;
use crate::text::spec_ascii_lower;
use crate::text::spec_dec_val;
use crate::text::spec_is_i32;
use crate::text::spec_i32_val;
use crate::text::spec_is_u64;
use crate::text::spec_unsigned_digits;
use crate::text::str_eq;
use crate::text::ascii_lowercase;
use crate::xml::spec_collect_attributed;
use crate::xml::spec_drill;
use crate::xml::spec_find_child;
use crate::xml::XmlElement;
use crate::Error;
use std::str::FromStr;
use vstd::prelude::*;

verus! {

/// The file header the whole file denotes: the segment at position zero,
/// which must carry the file-header tag.
pub open spec fn spec_file_header_of(f: Seq<u8>) -> Option<FileHeaderV> {
    if spec_segment_ok(f, 0) {
        match spec_segment(f, 0).block {
            SegmentBlockV::FileHeader(h) => Some(h),
            _ => None,
        }
    } else {
        None
    }
}

/// The file header read from the segment at position zero. Fails with the
/// segment's own error, or with a `Format` error when the segment there is
/// not a file header.
pub fn get_file_header(file: &Vec<u8>) -> (r: Result<FileHeader, Error>)
    ensures
        r is Ok <==> spec_file_header_of(file@) is Some,
        r is Ok ==> Some(r->Ok_0@) == spec_file_header_of(file@),
        r is Err ==> {
            &&& !r->Err_0.is_backwards_skip()
            &&& !r->Err_0.is_parse()
            &&& (r->Err_0.is_io() <==> spec_segment_err_io(file@, 0))
            &&& (r->Err_0.is_format() <==> spec_segment_err_format(file@, 0) || (
            spec_segment_ok(file@, 0) && !(spec_segment(file@, 0).block is FileHeader)))
        },
{
    let s = Segment::new(file, 0)?;
    match s.block {
        SegmentBlock::FileHeader(hd) => Ok(hd),
        _ => Err(Error::Format("unexpected block when looking for header".to_owned())),
    }
}

/// The metadata the header's recorded position denotes: the segment there,
/// which must carry the metadata tag.
pub open spec fn spec_metadata_of(f: Seq<u8>, h: FileHeaderV) -> Option<MetadataV> {
    if spec_segment_ok(f, h.MetadataPosition as int) {
        match spec_segment(f, h.MetadataPosition as int).block {
            SegmentBlockV::Metadata(m) => Some(m),
            _ => None,
        }
    } else {
        None
    }
}

/// The directory the header's recorded position denotes.
pub open spec fn spec_directory_of(f: Seq<u8>, h: FileHeaderV) -> Option<DirectoryV> {
    if spec_segment_ok(f, h.DirectoryPosition as int) {
        match spec_segment(f, h.DirectoryPosition as int).block {
            SegmentBlockV::Directory(d) => Some(d),
            _ => None,
        }
    } else {
        None
    }
}

/// The attachment entries the header's recorded position denotes.
pub open spec fn spec_attachments_of(f: Seq<u8>, h: FileHeaderV) -> Option<
    Seq<AttachmentEntryV>,
> {
    if spec_segment_ok(f, h.AttachmentDirectoryPosition as int) {
        match spec_segment(f, h.AttachmentDirectoryPosition as int).block {
            SegmentBlockV::AttachmentDirectory(d) => Some(d.Entries),
            _ => None,
        }
    } else {
        None
    }
}

/// The text the metadata XML names as the image's timestamp: the
/// acquisition date and time where the XML records one, else the
/// document's creation date; nothing when neither element is found or the
/// found element has no text.
pub open spec fn spec_timestamp_text(tree: XmlElement) -> Option<Seq<char>> {
    match spec_drill(tree, seq!["Information"@, "Image"@, "AcquisitionDateAndTime"@]) {
        Some(e) => e.spec_text(),
        None => match spec_drill(tree, seq!["Information"@, "Document"@, "CreationDate"@]) {
            Some(e) => e.spec_text(),
            None => None,
        },
    }
}

/// The timestamp text the whole file denotes, through the metadata
/// segment and its XML tree.
pub open spec fn spec_timestamp_text_of(f: Seq<u8>, h: FileHeaderV) -> Option<Seq<char>> {
    match spec_metadata_of(f, h) {
        Some(m) => match spec_metadata_tree(m.source) {
            Some(tree) => spec_timestamp_text(tree),
            None => None,
        },
        None => None,
    }
}

/// The timestamp text of a metadata XML tree: the acquisition date and
/// time, or the document's creation date as the fallback. Fails with a
/// `Format` error when neither is present with text.
pub fn timestamp_text(tree: &XmlElement) -> (r: Result<String, Error>)
    ensures
        r is Ok <==> spec_timestamp_text(*tree) is Some,
        r is Ok ==> Some(r->Ok_0@) == spec_timestamp_text(*tree),
        r is Err ==> r->Err_0.is_format(),
{
    let acquisition = ["Information", "Image", "AcquisitionDateAndTime"];
    let creation = ["Information", "Document", "CreationDate"];
    proof {
        assert(acquisition@.map_values(|p: &str| p@) =~= seq![
            "Information"@,
            "Image"@,
            "AcquisitionDateAndTime"@,
        ]);
        assert(creation@.map_values(|p: &str| p@) =~= seq![
            "Information"@,
            "Document"@,
            "CreationDate"@,
        ]);
    }
    let found = match tree.drill_down(&acquisition) {
        Ok(e) => e,
        Err(_) => tree.drill_down(&creation)?,
    };
    match found.get_text() {
        Some(t) => Ok(t.clone()),
        None => Err(Error::Format("the timestamp element has no text".to_owned())),
    }
}

/// A moment in local time, as the outside date library represents it.
/// The library computes nothing from it; the wrappers below hand out what
/// callers need.
#[verifier::external_body]
pub struct LocalTime {
    inner: chrono::DateTime<chrono::Local>,
}

impl LocalTime {
    /// Relies on chrono's `DateTime::timestamp`: the moment as whole
    /// seconds since the Unix epoch.
    #[verifier::external_body]
    pub fn timestamp_seconds(&self) -> i64 {
        self.inner.timestamp()
    }

    /// Relies on chrono's RFC 3339 rendering of the moment.
    #[verifier::external_body]
    pub fn rfc3339(&self) -> String {
        self.inner.to_rfc3339()
    }
}

/// Relies on chrono: parses the text as a date-time with an offset
/// (a relaxed RFC 3339), falling back to `%Y-%m-%dT%H:%M:%S` read as local
/// time. What comes back depends on the machine's time zone, so nothing
/// more is stated of it.
#[verifier::external_body]
fn parse_datetime_local(s: &str) -> (r: Option<LocalTime>) {
    let parsed = match chrono::DateTime::<chrono::Local>::from_str(s) {
        Ok(t) => Some(t),
        Err(_) => match chrono::NaiveDateTime::parse_from_str(s, "%Y-%m-%dT%H:%M:%S") {
            Ok(n) => n.and_local_timezone(chrono::Local).single(),
            Err(_) => None,
        },
    };
    parsed.map(|inner| LocalTime { inner })
}

/// The first attachment entry named `Thumbnail`.
pub open spec fn spec_find_thumbnail(es: Seq<AttachmentEntryV>) -> Option<AttachmentEntryV>
    decreases es.len(),
{
    if es.len() == 0 {
        None
    } else if es[0].Name == "Thumbnail"@ {
        Some(es[0])
    } else {
        spec_find_thumbnail(es.drop_first())
    }
}

/// What looking up the thumbnail yields: nothing on a failure; otherwise
/// either no thumbnail entry, or the attachment parsed at the entry's
/// recorded position.
pub open spec fn spec_thumbnail_of(f: Seq<u8>, h: FileHeaderV) -> Option<Option<AttachmentV>> {
    match spec_attachments_of(f, h) {
        Some(es) => match spec_find_thumbnail(es) {
            None => Some(None),
            Some(e) => {
                if spec_segment_ok(f, e.FilePosition as int) {
                    match spec_segment(f, e.FilePosition as int).block {
                        SegmentBlockV::Attachment(a) => Some(Some(a)),
                        _ => None,
                    }
                } else {
                    None
                }
            },
        },
        None => None,
    }
}

impl FileHeader {
    /// The metadata segment the header points at. Fails with the segment's
    /// own error, or with a `Format` error when the segment there is not
    /// metadata.
    pub fn get_metadata(&self, file: &Vec<u8>) -> (r: Result<Metadata, Error>)
        ensures
            r is Ok <==> spec_metadata_of(file@, self@) is Some,
            r is Ok ==> Some(r->Ok_0@) == spec_metadata_of(file@, self@) && r->Ok_0.inv()
                && r->Ok_0@.tree is None,
            r is Err ==> ({
                let pos = self@.MetadataPosition as int;
                &&& !r->Err_0.is_backwards_skip()
                &&& !r->Err_0.is_parse()
                &&& (r->Err_0.is_io() <==> spec_segment_err_io(file@, pos))
                &&& (r->Err_0.is_format() <==> spec_segment_err_format(file@, pos) || (
                spec_segment_ok(file@, pos) && !(spec_segment(file@, pos).block is Metadata)))
            }),
    {
        let s = Segment::new(file, self.MetadataPosition)?;
        match s.block {
            SegmentBlock::Metadata(d) => Ok(d),
            _ => Err(Error::Format("unexpected block when looking for metadata".to_owned())),
        }
    }

    /// The directory segment the header points at. Fails with the
    /// segment's own error, or with a `Format` error when the segment
    /// there is not a directory.
    pub fn get_directory(&self, file: &Vec<u8>) -> (r: Result<Directory, Error>)
        ensures
            r is Ok <==> spec_directory_of(file@, self@) is Some,
            r is Ok ==> Some(r->Ok_0@) == spec_directory_of(file@, self@),
            r is Err ==> ({
                let pos = self@.DirectoryPosition as int;
                &&& !r->Err_0.is_backwards_skip()
                &&& !r->Err_0.is_parse()
                &&& (r->Err_0.is_io() <==> spec_segment_err_io(file@, pos))
                &&& (r->Err_0.is_format() <==> spec_segment_err_format(file@, pos) || (
                spec_segment_ok(file@, pos) && !(spec_segment(file@, pos).block is Directory)))
            }),
    {
        let s = Segment::new(file, self.DirectoryPosition)?;
        match s.block {
            SegmentBlock::Directory(d) => Ok(d),
            _ => Err(Error::Format("unexpected block when looking for directory".to_owned())),
        }
    }

    /// The attachment entries of the attachment directory the header
    /// points at. Fails with the segment's own error, or with a `Format`
    /// error when the segment there is not an attachment directory.
    pub fn get_attachments(&self, file: &Vec<u8>) -> (r: Result<Vec<AttachmentEntryA1>, Error>)
        ensures
            r is Ok <==> spec_attachments_of(file@, self@) is Some,
            r is Ok ==> Some(Seq::new(r->Ok_0@.len(), |i: int| r->Ok_0@[i]@))
                == spec_attachments_of(file@, self@),
            r is Err ==> ({
                let pos = self@.AttachmentDirectoryPosition as int;
                &&& !r->Err_0.is_backwards_skip()
                &&& !r->Err_0.is_parse()
                &&& (r->Err_0.is_io() <==> spec_segment_err_io(file@, pos))
                &&& (r->Err_0.is_format() <==> spec_segment_err_format(file@, pos) || (
                spec_segment_ok(file@, pos) && !(spec_segment(
                    file@,
                    pos,
                ).block is AttachmentDirectory)))
            }),
    {
        let s = Segment::new(file, self.AttachmentDirectoryPosition)?;
        match s.block {
            SegmentBlock::AttachmentDirectory(d) => Ok(d.Entries),
            _ => Err(
                Error::Format("unexpected block when looking for attachments".to_owned()),
            ),
        }
    }

    /// The raw XML source held inside the metadata segment.
    pub fn get_metadata_xml(&self, file: &Vec<u8>) -> (r: Result<String, Error>)
        ensures
            r is Ok <==> spec_metadata_of(file@, self@) is Some,
            r is Ok ==> (spec_metadata_of(file@, self@) matches Some(m) && m.source == r->Ok_0@),
            r is Err ==> ({
                let pos = self@.MetadataPosition as int;
                &&& !r->Err_0.is_backwards_skip()
                &&& !r->Err_0.is_parse()
                &&& (r->Err_0.is_io() <==> spec_segment_err_io(file@, pos))
                &&& (r->Err_0.is_format() <==> spec_segment_err_format(file@, pos) || (
                spec_segment_ok(file@, pos) && !(spec_segment(file@, pos).block is Metadata)))
            }),
    {
        let e = self.get_metadata(file)?;
        Ok(e.cache.source.clone())
    }

    /// The image's timestamp: the metadata XML's acquisition date and
    /// time, or the document's creation date, parsed as a date-time.
    /// Succeeds only when that text exists and the date library accepts
    /// it; the text handed over is exactly the one `timestamp_text` names.
    pub fn get_timestamp(&self, file: &Vec<u8>) -> (r: Result<LocalTime, Error>)
        ensures
            r is Ok ==> spec_timestamp_text_of(file@, self@) is Some,
            spec_timestamp_text_of(file@, self@) is None ==> r is Err,
            r is Err ==> {
                &&& !r->Err_0.is_backwards_skip()
                &&& (r->Err_0.is_parse() <==> spec_timestamp_text_of(file@, self@) is Some)
                &&& (r->Err_0.is_io() || r->Err_0.is_format() || r->Err_0.is_parse())
            },
    {
        let mut meta = self.get_metadata(file)?;
        let tree = meta.as_tree()?;
        let text = timestamp_text(tree)?;
        match parse_datetime_local(text.as_str()) {
            Some(t) => Ok(t),
            None => Err(Error::Parse("the timestamp text is not a date-time".to_owned())),
        }
    }

    /// The attachment named `Thumbnail`, if the file has one: its entry is
    /// looked up in the attachment directory, and the attachment segment
    /// at its recorded position is parsed. The thumbnail's bytes are not
    /// read; its lazy handle is returned empty.
    pub fn get_thumbnail(&self, file: &Vec<u8>) -> (r: Result<Option<Attachment>, Error>)
        ensures
            r is Ok <==> spec_thumbnail_of(file@, self@) is Some,
            r is Ok ==> match r->Ok_0 {
                Some(a) => spec_thumbnail_of(file@, self@) == Some(Some(a@))
                    && a.Data.stored() is None,
                None => spec_thumbnail_of(file@, self@) == Some(None::<AttachmentV>),
            },
            r is Err ==> ({
                let adp = self@.AttachmentDirectoryPosition as int;
                let atts = spec_attachments_of(file@, self@);
                let entry = if atts is Some {
                    spec_find_thumbnail(atts->0)
                } else {
                    None
                };
                &&& !r->Err_0.is_backwards_skip()
                &&& !r->Err_0.is_parse()
                &&& (r->Err_0.is_io() <==> spec_segment_err_io(file@, adp) || (atts is Some
                    && entry is Some && spec_segment_err_io(file@, entry->0.FilePosition as int)))
                &&& (r->Err_0.is_format() <==> (spec_segment_err_format(file@, adp) || (
                spec_segment_ok(file@, adp) && !(spec_segment(
                    file@,
                    adp,
                ).block is AttachmentDirectory))) || (atts is Some && entry is Some && (
                spec_segment_err_format(file@, entry->0.FilePosition as int) || (spec_segment_ok(
                    file@,
                    entry->0.FilePosition as int,
                ) && !(spec_segment(file@, entry->0.FilePosition as int).block is Attachment)))))
            }),
    {
        let attachments = self.get_attachments(file)?;
        let ghost es = Seq::new(attachments@.len(), |i: int| attachments@[i]@);
        let n = attachments.len();
        let mut i: usize = 0;
        let mut found_idx: Option<usize> = None;
        proof {
            assert(es.skip(0) =~= es);
        }
        while i < n && found_idx.is_none()
            invariant
                n == attachments@.len(),
                i <= n,
                es == Seq::new(attachments@.len(), |k: int| attachments@[k]@),
                found_idx is None ==> spec_find_thumbnail(es) == spec_find_thumbnail(
                    es.skip(i as int),
                ),
                found_idx matches Some(j) ==> j < n && spec_find_thumbnail(es) == Some(
                    es[j as int],
                ),
            decreases n - i,
        {
            proof {
                assert(es.skip(i as int)[0] == es[i as int]);
                assert(es.skip(i as int).drop_first() =~= es.skip(i + 1));
            }
            if str_eq(attachments[i].Name.as_str(), "Thumbnail") {
                found_idx = Some(i);
            }
            i = i + 1;
        }
        proof {
            assert(es.skip(n as int) =~= Seq::<AttachmentEntryV>::empty());
        }
        let thumbnail = match found_idx {
            Some(j) => &attachments[j],
            None => {
                return Ok(None);
            },
        };
        let att = Segment::new(file, thumbnail.FilePosition)?;
        match att.block {
            SegmentBlock::Attachment(a) => Ok(Some(a)),
            _ => Err(
                Error::Format("unexpected block when looking for attachment".to_owned()),
            ),
        }
    }
}


/// The named child's text, where the child exists and has text.
pub open spec fn spec_child_text(e: XmlElement, name: Seq<char>) -> Option<Seq<char>> {
    match spec_find_child(e.children@, name) {
        Some(c) => c.spec_text(),
        None => None,
    }
}

/// The named child's text as a `u64`, where it exists and decodes.
pub open spec fn spec_child_u64(e: XmlElement, name: Seq<char>) -> Option<u64> {
    match spec_child_text(e, name) {
        Some(t) => if spec_is_u64(t) {
            Some(spec_dec_val(spec_unsigned_digits(t)) as u64)
        } else {
            None
        },
        None => None,
    }
}

/// The named child's text as a `usize`, where it exists and decodes.
pub open spec fn spec_child_usize(e: XmlElement, name: Seq<char>) -> Option<usize> {
    match spec_child_text(e, name) {
        Some(t) => if spec_is_u64(t) && spec_dec_val(spec_unsigned_digits(t)) <= usize::MAX {
            Some(spec_dec_val(spec_unsigned_digits(t)) as usize)
        } else {
            None
        },
        None => None,
    }
}

/// The named child's text as an `i32`, where it exists and decodes.
pub open spec fn spec_child_i32(e: XmlElement, name: Seq<char>) -> Option<i32> {
    match spec_child_text(e, name) {
        Some(t) => if spec_is_i32(t) {
            Some(spec_i32_val(t) as i32)
        } else {
            None
        },
        None => None,
    }
}

/// One scene of the image: its region, how many pyramid layers it has,
/// and the factor between successive layers.
pub struct Scene {
    pub RegionId: String,
    pub PyramidLayersCount: usize,
    pub MinificationFactor: i32,
}

/// The mathematical value of a scene.
pub struct SceneV {
    pub RegionId: Seq<char>,
    pub PyramidLayersCount: usize,
    pub MinificationFactor: i32,
}

impl View for Scene {
    type V = SceneV;

    open spec fn view(&self) -> SceneV {
        SceneV {
            RegionId: self.RegionId@,
            PyramidLayersCount: self.PyramidLayersCount,
            MinificationFactor: self.MinificationFactor,
        }
    }
}

/// The scene a scene element denotes: its `RegionId` text, and the layer
/// count and minification factor under its `PyramidInfo` child. Nothing
/// when any of the four is missing or does not decode.
pub open spec fn spec_scene(e: XmlElement) -> Option<SceneV> {
    let pinfo = spec_find_child(e.children@, "PyramidInfo"@);
    let rid = spec_child_text(e, "RegionId"@);
    if pinfo is Some && rid is Some && spec_child_usize(pinfo->0, "PyramidLayersCount"@)
        is Some && spec_child_i32(pinfo->0, "MinificationFactor"@) is Some {
        Some(
            SceneV {
                RegionId: rid->0,
                PyramidLayersCount: spec_child_usize(pinfo->0, "PyramidLayersCount"@)->0,
                MinificationFactor: spec_child_i32(pinfo->0, "MinificationFactor"@)->0,
            },
        )
    } else {
        None
    }
}

/// The scenes a list of scene elements denotes, in document order;
/// nothing as soon as one of them does not.
pub open spec fn spec_scenes(cs: Seq<XmlElement>) -> Option<Seq<SceneV>>
    decreases cs.len(),
{
    if cs.len() == 0 {
        Some(Seq::empty())
    } else {
        match (spec_scene(cs[0]), spec_scenes(cs.drop_first())) {
            (Some(sc), Some(rest)) => Some(seq![sc] + rest),
            _ => None,
        }
    }
}

/// Pairs with their keys lowered to ASCII small letters.
pub open spec fn spec_lower_pairs(s: Seq<(Seq<char>, Seq<char>)>) -> Seq<(Seq<char>, Seq<char>)> {
    Seq::new(s.len(), |i: int| (spec_ascii_lower(s[i].0), s[i].1))
}

/// The pixel sizes in metres, keyed by the lowercased axis name: from the
/// `Scaling/Items` element under the tree's root or under the image
/// element, whichever exists, collecting each `Distance` child's `Value`
/// by its `Id`. An absent scaling element, or one whose collection fails,
/// gives the empty mapping.
pub open spec fn spec_pixel_size(tree: XmlElement, image: XmlElement) -> Seq<
    (Seq<char>, Seq<char>),
> {
    let sc = match spec_drill(tree, seq!["Scaling"@, "Items"@]) {
        Some(e) => Some(e),
        None => spec_drill(image, seq!["Scaling"@, "Items"@]),
    };
    match sc {
        Some(e) => match spec_collect_attributed(e.children@, "Distance"@, "Id"@) {
            Some(v) => if v.len() > 0 {
                spec_lower_pairs(v)
            } else {
                Seq::empty()
            },
            None => Seq::empty(),
        },
        None => Seq::empty(),
    }
}

/// What the file says about its image: the pixel extents and type, the
/// pixel sizes, the optional acquisition duration (as its recorded text)
/// and mosaic tile count, and the scenes.
pub struct ImageInfo {
    pub pixels: (u64, u64, u64),
    pub pixel_size: Vec<(String, String)>,
    pub pixel_type: String,
    pub timestamp: LocalTime,
    pub acquisition_duration: Option<String>,
    pub mosaic_tiles: Option<u64>,
    pub scenes: Vec<Scene>,
}

/// The mathematical value of an image description. The timestamp stays
/// outside it: the date library's value is opaque to the verifier.
#[verifier::ext_equal]
pub struct ImageInfoV {
    pub pixels: (u64, u64, u64),
    pub pixel_size: Seq<(Seq<char>, Seq<char>)>,
    pub pixel_type: Seq<char>,
    pub acquisition_duration: Option<Seq<char>>,
    pub mosaic_tiles: Option<u64>,
    pub scenes: Seq<SceneV>,
}

impl View for ImageInfo {
    type V = ImageInfoV;

    open spec fn view(&self) -> ImageInfoV {
        ImageInfoV {
            pixels: self.pixels,
            pixel_size: Seq::new(
                self.pixel_size@.len(),
                |i: int| (self.pixel_size@[i].0@, self.pixel_size@[i].1@),
            ),
            pixel_type: self.pixel_type@,
            acquisition_duration: match self.acquisition_duration {
                Some(t) => Some(t@),
                None => None,
            },
            mosaic_tiles: self.mosaic_tiles,
            scenes: Seq::new(self.scenes@.len(), |i: int| self.scenes@[i]@),
        }
    }
}

/// The image description a metadata XML tree denotes, apart from its
/// timestamp: nothing when the image element, one of its extents, its
/// pixel type or one of its scenes is missing or does not decode.
pub open spec fn spec_image_info_tree(tree: XmlElement) -> Option<ImageInfoV> {
    match spec_drill(tree, seq!["Information"@, "Image"@]) {
        Some(image) => {
            let sx = spec_child_u64(image, "SizeX"@);
            let sy = spec_child_u64(image, "SizeY"@);
            let sz = spec_child_u64(image, "SizeZ"@);
            let pt = spec_child_text(image, "PixelType"@);
            let scenes = match spec_drill(image, seq!["Dimensions"@, "S"@, "Scenes"@]) {
                Some(se) => spec_scenes(se.children@),
                None => Some(Seq::empty()),
            };
            if sx is Some && sy is Some && sz is Some && pt is Some && scenes is Some {
                Some(
                    ImageInfoV {
                        pixels: (sx->0, sy->0, sz->0),
                        pixel_size: spec_pixel_size(tree, image),
                        pixel_type: pt->0,
                        acquisition_duration: spec_child_text(image, "AcquisitionDuration"@),
                        mosaic_tiles: spec_child_u64(image, "SizeM"@),
                        scenes: scenes->0,
                    },
                )
            } else {
                None
            }
        },
        None => None,
    }
}

/// The image description the whole file denotes, apart from its
/// timestamp.
pub open spec fn spec_image_info(f: Seq<u8>, h: FileHeaderV) -> Option<ImageInfoV> {
    match spec_metadata_of(f, h) {
        Some(m) => match spec_metadata_tree(m.source) {
            Some(tree) => spec_image_info_tree(tree),
            None => None,
        },
        None => None,
    }
}

/// The scene a scene element denotes, executably.
fn scene_of(e: &XmlElement) -> (r: Result<Scene, Error>)
    ensures
        r is Ok <==> spec_scene(*e) is Some,
        r is Ok ==> Some(r->Ok_0@) == spec_scene(*e),
        r is Err ==> !r->Err_0.is_backwards_skip(),
{
    let pinfo = match e.get_child("PyramidInfo") {
        Some(p) => p,
        None => {
            return Err(Error::Format("a scene has no pyramid description".to_owned()));
        },
    };
    let region_id = e.child_into_string("RegionId")?;
    let layers = pinfo.child_into_usize("PyramidLayersCount")?;
    let minification = pinfo.child_into_i32("MinificationFactor")?;
    Ok(
        Scene {
            RegionId: region_id,
            PyramidLayersCount: layers,
            MinificationFactor: minification,
        },
    )
}

/// The scenes of a scene list element, executably.
#[verifier::loop_isolation(false)]
fn scenes_of(se: &XmlElement) -> (r: Result<Vec<Scene>, Error>)
    ensures
        r is Ok <==> spec_scenes(se.children@) is Some,
        r is Ok ==> Some(Seq::new(r->Ok_0@.len(), |i: int| r->Ok_0@[i]@)) == spec_scenes(
            se.children@,
        ),
        r is Err ==> !r->Err_0.is_backwards_skip(),
{
    let ghost cs = se.children@;
    let ghost full = spec_scenes(cs);
    let n = se.children.len();
    let mut out: Vec<Scene> = Vec::new();
    let mut i: usize = 0;
    proof {
        assert(cs.skip(0) =~= cs);
    }
    while i < n
        invariant
            i <= n,
            out@.len() == i,
            ({
                let rest = spec_scenes(cs.skip(i as int));
                match full {
                    Some(fv) => {
                        &&& rest is Some
                        &&& fv.len() == i + rest->0.len()
                        &&& forall|k: int|
                            0 <= k < i ==> (#[trigger] out@[k])@ == fv[k]
                        &&& forall|k: int|
                            0 <= k < rest->0.len() ==> #[trigger] rest->0[k] == fv[i + k]
                    },
                    None => rest is None,
                }
            }),
        decreases n - i,
    {
        let ghost pre = cs.skip(i as int);
        proof {
            assert(pre[0] == cs[i as int]);
            assert(pre.drop_first() =~= cs.skip(i + 1));
        }
        let sc = match scene_of(&se.children[i]) {
            Ok(sc) => sc,
            Err(err) => {
                return Err(err);
            },
        };
        out.push(sc);
        proof {
            let rest = spec_scenes(pre);
            let rest2 = spec_scenes(cs.skip(i + 1));
            if full is Some {
                let fv = full->0;
                assert(rest->0[0] == sc@);
                assert forall|k: int| 0 <= k < rest2->0.len() implies #[trigger] rest2->0[k]
                    == fv[i + 1 + k] by {
                    assert(rest->0[k + 1] == rest2->0[k]);
                }
            }
        }
        i = i + 1;
    }
    proof {
        assert(cs.skip(n as int) =~= Seq::<XmlElement>::empty());
    }
    Ok(out)
}

/// Pairs with their keys lowered, executably.
#[verifier::loop_isolation(false)]
fn lower_keys(v: Vec<(String, String)>) -> (r: Vec<(String, String)>)
    ensures
        r@.len() == v@.len(),
        forall|i: int|
            0 <= i < v@.len() ==> (#[trigger] r@[i]).0@ == spec_ascii_lower(v@[i].0@)
                && r@[i].1@ == v@[i].1@,
{
    let n = v.len();
    let mut out: Vec<(String, String)> = Vec::new();
    let mut i: usize = 0;
    while i < n
        invariant
            i <= n,
            out@.len() == i,
            forall|k: int|
                0 <= k < i ==> (#[trigger] out@[k]).0@ == spec_ascii_lower(v@[k].0@)
                    && out@[k].1@ == v@[k].1@,
        decreases n - i,
    {
        let key = ascii_lowercase(v[i].0.as_str());
        out.push((key, v[i].1.clone()));
        i = i + 1;
    }
    out
}


impl FileHeader {
    /// The image description the metadata XML holds: pixel extents and
    /// type, pixel sizes, timestamp, optional duration and mosaic count,
    /// and the scenes. Succeeds exactly on the files whose description
    /// and timestamp text are present and decode, and whose timestamp the
    /// date library accepts.
    pub fn get_image_info(&self, file: &Vec<u8>) -> (r: Result<ImageInfo, Error>)
        ensures
            r is Ok ==> Some(r->Ok_0@) == spec_image_info(file@, self@)
                && spec_timestamp_text_of(file@, self@) is Some,
            spec_image_info(file@, self@) is None ==> r is Err,
            spec_timestamp_text_of(file@, self@) is None ==> r is Err,
            r is Err ==> {
                &&& !r->Err_0.is_backwards_skip()
                &&& (spec_image_info(file@, self@) is Some && spec_timestamp_text_of(
                    file@,
                    self@,
                ) is Some ==> r->Err_0.is_parse())
                &&& (r->Err_0.is_parse() ==> spec_image_info(file@, self@) is None
                    || spec_timestamp_text_of(file@, self@) is Some)
            },
    {
        let mut meta = self.get_metadata(file)?;
        let tree = meta.as_tree()?;
        let ghost treev = *tree;
        let info_path = ["Information", "Image"];
        let scaling_path = ["Scaling", "Items"];
        let scenes_path = ["Dimensions", "S", "Scenes"];
        proof {
            assert(info_path@.map_values(|p: &str| p@) =~= seq!["Information"@, "Image"@]);
            assert(scaling_path@.map_values(|p: &str| p@) =~= seq!["Scaling"@, "Items"@]);
            assert(scenes_path@.map_values(|p: &str| p@) =~= seq![
                "Dimensions"@,
                "S"@,
                "Scenes"@,
            ]);
        }
        let image = tree.drill_down(&info_path)?;
        proof {
            crate::xml::lemma_drill_wf(treev, seq!["Information"@, "Image"@]);
        }
        let sx = image.child_into_u64("SizeX")?;
        let sy = image.child_into_u64("SizeY")?;
        let sz = image.child_into_u64("SizeZ")?;
        let pixel_type = image.child_into_string("PixelType")?;
        let pixel_size: Vec<(String, String)> = match tree.drill_down(&scaling_path) {
            Ok(sc) => {
                proof {
                    crate::xml::lemma_drill_wf(treev, seq!["Scaling"@, "Items"@]);
                }
                match sc.collect_attributed_values("Distance", "Id") {
                    Ok(v) => lower_keys(v),
                    Err(_) => Vec::new(),
                }
            },
            Err(_) => match image.drill_down(&scaling_path) {
                Ok(sc) => {
                    proof {
                        crate::xml::lemma_drill_wf(*image, seq!["Scaling"@, "Items"@]);
                    }
                    match sc.collect_attributed_values("Distance", "Id") {
                        Ok(v) => lower_keys(v),
                        Err(_) => Vec::new(),
                    }
                },
                Err(_) => Vec::new(),
            },
        };
        let scenes: Vec<Scene> = match image.drill_down(&scenes_path) {
            Ok(se) => scenes_of(se)?,
            Err(_) => Vec::new(),
        };
        let timestamp = self.get_timestamp(file)?;
        let acquisition_duration: Option<String> = match image.get_child(
            "AcquisitionDuration",
        ) {
            Some(c) => match c.get_text() {
                Some(t) => Some(t.clone()),
                None => None,
            },
            None => None,
        };
        let mosaic_tiles: Option<u64> = match image.child_into_u64("SizeM") {
            Ok(v) => Some(v),
            Err(_) => None,
        };
        let info = ImageInfo {
            pixels: (sx, sy, sz),
            pixel_size,
            pixel_type,
            timestamp,
            acquisition_duration,
            mosaic_tiles,
            scenes,
        };
        proof {
            let specv = spec_image_info_tree(treev)->0;
            assert(info@.pixel_size =~= specv.pixel_size);
            assert(info@.scenes =~= specv.scenes);
            assert(info@ =~= specv);
        }
        Ok(info)
    }
}


/// Reads are idempotent: each of `get_metadata`, `get_directory`,
/// `get_attachments` and `get_image_info` returns the one value its
/// specification function assigns to the header and the file's bytes, so
/// two results of the same read of the same file are equal.
pub proof fn lemma_reads_idempotent(
    f: Seq<u8>,
    h: FileHeaderV,
    m1: Option<MetadataV>,
    m2: Option<MetadataV>,
    d1: Option<DirectoryV>,
    d2: Option<DirectoryV>,
    a1: Option<Seq<AttachmentEntryV>>,
    a2: Option<Seq<AttachmentEntryV>>,
    i1: Option<ImageInfoV>,
    i2: Option<ImageInfoV>,
)
    requires
        m1 == spec_metadata_of(f, h),
        m2 == spec_metadata_of(f, h),
        d1 == spec_directory_of(f, h),
        d2 == spec_directory_of(f, h),
        a1 == spec_attachments_of(f, h),
        a2 == spec_attachments_of(f, h),
        i1 == spec_image_info(f, h),
        i2 == spec_image_info(f, h),
    ensures
        m1 == m2,
        d1 == d2,
        a1 == a2,
        i1 == i2,
{
}

} // verus!
