//! Tests of the facade on a synthetic container: thumbnail retrieval,
//! timestamp preference and fallback, image description extraction, and
//! the idempotence of reads.

use zisraw::registry::image_record;
use zisraw::registry::register_outcome;
use zisraw::registry::RegisterSuccess;
use zisraw::segment::FileHeader;
use zisraw::segment::Guid;
use zisraw::zisraw::get_file_header;
use zisraw::Error;

const TEST_GUID: [u8; 16] = [
    0x01, 0x23, 0x45, 0x67, 0x89, 0xAB, 0xCD, 0xEF, 0x10, 0x32, 0x54, 0x76, 0x98, 0xBA, 0xDC,
    0xFE,
];

fn push_tag(out: &mut Vec<u8>, tag: &str) {
    let mut t = tag.as_bytes().to_vec();
    while t.len() < 16 {
        t.push(0);
    }
    out.extend_from_slice(&t);
}

fn push_u32(out: &mut Vec<u8>, v: u32) {
    out.extend_from_slice(&v.to_le_bytes());
}

fn push_i32(out: &mut Vec<u8>, v: i32) {
    out.extend_from_slice(&v.to_le_bytes());
}

fn push_u64(out: &mut Vec<u8>, v: u64) {
    out.extend_from_slice(&v.to_le_bytes());
}

fn pad_to(out: &mut Vec<u8>, len: usize) {
    while out.len() < len {
        out.push(0);
    }
}

fn push_ascii_field(out: &mut Vec<u8>, text: &str, len: usize) {
    let start = out.len();
    out.extend_from_slice(text.as_bytes());
    pad_to(out, start + len);
}

/// A whole synthetic container: a file header, a metadata segment holding
/// `xml`, an empty directory, and — when asked — an attachment directory
/// with one `Thumbnail` entry and the attachment itself holding three
/// JPEG-ish bytes.
fn build_file(xml: &str, thumbnail: bool) -> Vec<u8> {
    let mut f = Vec::new();
    // File header segment at position zero.
    push_tag(&mut f, "ZISRAWFILE");
    push_u64(&mut f, 512);
    push_u64(&mut f, 0);
    push_u32(&mut f, 1);
    push_u32(&mut f, 0);
    pad_to(&mut f, 32 + 16);
    f.extend_from_slice(&TEST_GUID);
    f.extend_from_slice(&TEST_GUID);
    push_i32(&mut f, 0);
    push_u64(&mut f, 0); // directory position, patched below
    push_u64(&mut f, 0); // metadata position, patched below
    push_i32(&mut f, 0);
    push_u64(&mut f, 0); // attachment directory position, patched below
    pad_to(&mut f, 32 + 512);

    // Metadata segment.
    let metadata_pos = f.len() as u64;
    push_tag(&mut f, "ZISRAWMETADATA");
    push_u64(&mut f, 256 + xml.len() as u64);
    push_u64(&mut f, 0);
    let payload = f.len();
    push_i32(&mut f, xml.len() as i32);
    pad_to(&mut f, payload + 256);
    f.extend_from_slice(xml.as_bytes());

    // An empty directory segment.
    let directory_pos = f.len() as u64;
    push_tag(&mut f, "ZISRAWDIRECTORY");
    push_u64(&mut f, 128);
    push_u64(&mut f, 0);
    let payload = f.len();
    push_i32(&mut f, 0);
    pad_to(&mut f, payload + 128);

    let mut attachment_dir_pos = 0u64;
    if thumbnail {
        attachment_dir_pos = f.len() as u64;
        // The attachment segment will follow the attachment directory.
        let attachment_pos = attachment_dir_pos + 32 + 256 + 128;
        push_tag(&mut f, "ZISRAWATTDIR");
        push_u64(&mut f, 256 + 128);
        push_u64(&mut f, 0);
        let payload = f.len();
        push_u32(&mut f, 1);
        pad_to(&mut f, payload + 256);
        push_entry(&mut f, attachment_pos);

        // The attachment segment itself.
        assert_eq!(f.len() as u64, attachment_pos);
        push_tag(&mut f, "ZISRAWATTACH");
        push_u64(&mut f, 256 + 3);
        push_u64(&mut f, 0);
        let payload = f.len();
        push_u32(&mut f, 3);
        pad_to(&mut f, payload + 16);
        push_entry(&mut f, attachment_pos);
        pad_to(&mut f, payload + 256);
        f.extend_from_slice(&[0xFF, 0xD8, 0xFF]);
    }

    f[32 + 52..32 + 60].copy_from_slice(&directory_pos.to_le_bytes());
    f[32 + 60..32 + 68].copy_from_slice(&metadata_pos.to_le_bytes());
    f[32 + 72..32 + 80].copy_from_slice(&attachment_dir_pos.to_le_bytes());
    f
}

/// One 128-byte attachment entry naming the thumbnail.
fn push_entry(f: &mut Vec<u8>, attachment_pos: u64) {
    let start = f.len();
    push_ascii_field(f, "A1", 2);
    pad_to(f, start + 12);
    push_u64(f, attachment_pos);
    push_i32(f, 0);
    f.extend_from_slice(&TEST_GUID);
    push_ascii_field(f, "JPG", 8);
    push_ascii_field(f, "Thumbnail", 80);
    assert_eq!(f.len(), start + 128);
}

const FULL_XML: &str = "<ImageDocument><Metadata>\
<Experiment><ImageName>sample.czi</ImageName></Experiment>\
<Information><Image>\
<SizeX>512</SizeX><SizeY>256</SizeY><SizeZ>1</SizeZ>\
<SizeM>9</SizeM>\
<PixelType>Gray16</PixelType>\
<AcquisitionDateAndTime>2020-01-02T03:04:05+00:00</AcquisitionDateAndTime>\
<AcquisitionDuration>12.5</AcquisitionDuration>\
<Dimensions><S><Scenes>\
<Scene Index=\"0\"><RegionId>A</RegionId><PyramidInfo>\
<PyramidLayersCount>4</PyramidLayersCount><MinificationFactor>2</MinificationFactor>\
</PyramidInfo></Scene>\
<Scene Index=\"1\"><RegionId>B</RegionId><PyramidInfo>\
<PyramidLayersCount>3</PyramidLayersCount><MinificationFactor>2</MinificationFactor>\
</PyramidInfo></Scene>\
</Scenes></S></Dimensions>\
</Image></Information>\
<Scaling><Items>\
<Distance Id=\"X\"><Value>9.76E-08</Value></Distance>\
<Distance Id=\"Y\"><Value>9.76E-08</Value></Distance>\
</Items></Scaling>\
</Metadata></ImageDocument>";

const FALLBACK_XML: &str = "<ImageDocument><Metadata>\
<Information><Document><CreationDate>2021-12-02T09:17:32</CreationDate></Document>\
</Information></Metadata></ImageDocument>";

#[test]
fn thumbnail_materialises_exactly_its_bytes() {
    let f = build_file(FULL_XML, true);
    let hd = get_file_header(&f).unwrap();
    let mut a = hd.get_thumbnail(&f).unwrap().expect("a thumbnail entry exists");
    assert_eq!(a.Entry.Name, "Thumbnail");
    assert_eq!(a.Entry.ContentFileType, "JPG");
    assert_eq!(a.Data.get(&f).unwrap(), &vec![0xFFu8, 0xD8, 0xFF]);
}

#[test]
fn no_attachment_directory_is_an_error_not_a_thumbnail() {
    // With no attachment directory recorded, position zero holds the file
    // header, whose tag is not an attachment directory.
    let f = build_file(FULL_XML, false);
    let hd = get_file_header(&f).unwrap();
    assert!(matches!(hd.get_thumbnail(&f), Err(Error::Format(_))));
}

#[test]
fn timestamp_prefers_the_acquisition_moment() {
    let f = build_file(FULL_XML, false);
    let hd = get_file_header(&f).unwrap();
    let t = hd.get_timestamp(&f).unwrap();
    // 2020-01-02T03:04:05+00:00 as seconds since the epoch.
    assert_eq!(t.timestamp_seconds(), 1577934245);
}

#[test]
fn timestamp_falls_back_to_the_creation_date() {
    let f = build_file(FALLBACK_XML, false);
    let hd = get_file_header(&f).unwrap();
    let t = hd.get_timestamp(&f).unwrap();
    let expected = chrono::NaiveDateTime::parse_from_str(
        "2021-12-02T09:17:32",
        "%Y-%m-%dT%H:%M:%S",
    )
    .unwrap()
    .and_local_timezone(chrono::Local)
    .single()
    .unwrap();
    assert_eq!(t.timestamp_seconds(), expected.timestamp());
}

#[test]
fn scenes_come_back_in_document_order() {
    let f = build_file(FULL_XML, false);
    let hd = get_file_header(&f).unwrap();
    let info = hd.get_image_info(&f).unwrap();
    assert_eq!(info.scenes.len(), 2);
    assert_eq!(info.scenes[0].RegionId, "A");
    assert_eq!(info.scenes[0].PyramidLayersCount, 4);
    assert_eq!(info.scenes[0].MinificationFactor, 2);
    assert_eq!(info.scenes[1].RegionId, "B");
    assert_eq!(info.scenes[1].PyramidLayersCount, 3);
    assert_eq!(info.scenes[1].MinificationFactor, 2);
}

#[test]
fn image_info_reads_the_image_facts() {
    let f = build_file(FULL_XML, false);
    let hd = get_file_header(&f).unwrap();
    let info = hd.get_image_info(&f).unwrap();
    assert_eq!(info.pixels, (512, 256, 1));
    assert_eq!(info.pixel_type, "Gray16");
    assert_eq!(info.mosaic_tiles, Some(9));
    assert_eq!(info.acquisition_duration.as_deref(), Some("12.5"));
    assert_eq!(info.pixel_size.len(), 2);
    assert_eq!(info.pixel_size[0].0, "x");
    assert_eq!(info.pixel_size[0].1, "9.76E-08");
    assert_eq!(info.pixel_size[1].0, "y");
}

#[test]
fn metadata_xml_is_returned_verbatim() {
    let f = build_file(FULL_XML, false);
    let hd = get_file_header(&f).unwrap();
    assert_eq!(hd.get_metadata_xml(&f).unwrap(), FULL_XML);
}

#[test]
fn repeated_reads_yield_equal_results() {
    let f = build_file(FULL_XML, true);
    let hd = get_file_header(&f).unwrap();
    assert_eq!(hd.get_metadata_xml(&f).unwrap(), hd.get_metadata_xml(&f).unwrap());
    let d1 = hd.get_directory(&f).unwrap();
    let d2 = hd.get_directory(&f).unwrap();
    assert_eq!(d1.Entries.len(), d2.Entries.len());
    let a1 = hd.get_attachments(&f).unwrap();
    let a2 = hd.get_attachments(&f).unwrap();
    assert_eq!(a1.len(), a2.len());
    assert_eq!(a1[0].Name, a2[0].Name);
    assert_eq!(a1[0].FilePosition, a2[0].FilePosition);
    let i1 = hd.get_image_info(&f).unwrap();
    let i2 = hd.get_image_info(&f).unwrap();
    assert_eq!(i1.pixels, i2.pixels);
    assert_eq!(i1.pixel_type, i2.pixel_type);
    assert_eq!(i1.pixel_size, i2.pixel_size);
    assert_eq!(i1.scenes.len(), i2.scenes.len());
    assert_eq!(i1.scenes[0].RegionId, i2.scenes[0].RegionId);
}

#[test]
fn wrong_block_at_a_recorded_position_is_a_format_error() {
    let f = build_file(FULL_XML, false);
    let hd = get_file_header(&f).unwrap();
    // A header whose metadata position points at the directory segment.
    let misdirected = FileHeader {
        version: hd.version,
        PrimaryFileGuid: hd.PrimaryFileGuid,
        FileGuid: hd.FileGuid,
        FilePart: hd.FilePart,
        DirectoryPosition: hd.DirectoryPosition,
        MetadataPosition: hd.DirectoryPosition,
        UpdatePending: hd.UpdatePending,
        AttachmentDirectoryPosition: hd.AttachmentDirectoryPosition,
    };
    assert!(matches!(misdirected.get_metadata(&f), Err(Error::Format(_))));
}

#[test]
fn image_record_gathers_the_insertion_facts() {
    let f = build_file(FULL_XML, true);
    let hd = get_file_header(&f).unwrap();
    let rec = image_record(&hd, &f).unwrap();
    assert_eq!(rec.guid, Guid::from_bytes(&TEST_GUID));
    // The primary GUID equals this file's GUID, so no parent is recorded.
    assert_eq!(rec.parent_guid, None);
    assert_eq!(rec.file_part, 0);
    assert_eq!(rec.original_name, "sample.czi");
    assert_eq!(rec.metadata_xml, FULL_XML);
    assert_eq!(rec.timestamp_seconds, 1577934245);
    assert_eq!(rec.thumbnail_type.as_deref(), Some("JPG"));
    assert_eq!(rec.thumbnail, Some(vec![0xFFu8, 0xD8, 0xFF]));
}

#[test]
fn register_outcome_follows_what_the_store_knows() {
    assert!(matches!(
        register_outcome(true, true, Vec::new()),
        RegisterSuccess::FileExists
    ));
    assert!(matches!(
        register_outcome(false, false, Vec::new()),
        RegisterSuccess::Inserted
    ));
    let known = vec!["a.czi".to_owned(), "b.czi".to_owned()];
    match register_outcome(false, true, known) {
        RegisterSuccess::ImageExists(v) => {
            assert_eq!(v, vec!["a.czi".to_owned(), "b.czi".to_owned()]);
        },
        _ => panic!("expected the known file names"),
    }
}

#[test]
fn recorded_position_past_the_end_is_an_io_error() {
    let f = build_file(FULL_XML, false);
    let hd = get_file_header(&f).unwrap();
    let misdirected = FileHeader {
        version: hd.version,
        PrimaryFileGuid: hd.PrimaryFileGuid,
        FileGuid: hd.FileGuid,
        FilePart: hd.FilePart,
        DirectoryPosition: hd.DirectoryPosition,
        MetadataPosition: 1 << 40,
        UpdatePending: hd.UpdatePending,
        AttachmentDirectoryPosition: hd.AttachmentDirectoryPosition,
    };
    assert!(matches!(misdirected.get_metadata(&f), Err(Error::Io(_))));
}

#[test]
fn malformed_metadata_xml_fails_only_when_parsed() {
    let f = build_file("<broken", false);
    let hd = get_file_header(&f).unwrap();
    // The segment itself parses: the XML source is retained unparsed.
    let mut m = hd.get_metadata(&f).unwrap();
    assert_eq!(m.cache.source, "<broken");
    // Asking for the tree parses the source and reports the fault.
    assert!(matches!(m.as_tree(), Err(Error::Format(_))));
    // So does anything that needs the tree.
    assert!(matches!(hd.get_timestamp(&f), Err(Error::Format(_))));
}

#[test]
fn missing_timestamp_text_is_a_format_error() {
    let f = build_file("<ImageDocument><Metadata><Information/></Metadata></ImageDocument>", false);
    let hd = get_file_header(&f).unwrap();
    assert!(matches!(hd.get_timestamp(&f), Err(Error::Format(_))));
}

#[test]
fn undecodable_timestamp_text_is_a_parse_error() {
    let f = build_file(
        "<ImageDocument><Metadata><Information><Document>\
         <CreationDate>not a moment</CreationDate>\
         </Document></Information></Metadata></ImageDocument>",
        false,
    );
    let hd = get_file_header(&f).unwrap();
    assert!(matches!(hd.get_timestamp(&f), Err(Error::Parse(_))));
}
