//! Tests of the segment layer on synthetic container bytes: the minimal
//! file header, an unknown tag, the directory, and the laziness of
//! sub-block data.

use zisraw::segment::Guid;
use zisraw::segment::Segment;
use zisraw::segment::SegmentBlock;
use zisraw::Error;

const TEST_GUID: [u8; 16] = [
    0x01, 0x23, 0x45, 0x67, 0x89, 0xAB, 0xCD, 0xEF, 0x10, 0x32, 0x54, 0x76, 0x98, 0xBA, 0xDC,
    0xFE,
];

fn push_tag(out: &mut Vec<u8>, tag: &str) {
    let mut t = tag.as_bytes().to_vec();
    while t.len() < 16 {
        t.push(0);
    }
    out.extend_from_slice(&t);
}

fn push_u32(out: &mut Vec<u8>, v: u32) {
    out.extend_from_slice(&v.to_le_bytes());
}

fn push_i32(out: &mut Vec<u8>, v: i32) {
    out.extend_from_slice(&v.to_le_bytes());
}

fn push_u64(out: &mut Vec<u8>, v: u64) {
    out.extend_from_slice(&v.to_le_bytes());
}

fn pad_to(out: &mut Vec<u8>, len: usize) {
    while out.len() < len {
        out.push(0);
    }
}

/// The minimal file-header segment: 512 allocated payload bytes holding
/// version (1, 0), the test GUID twice, file part 0, a directory at 1024,
/// metadata at 2048, no pending update and no attachment directory.
fn minimal_header_file() -> Vec<u8> {
    let mut f = Vec::new();
    push_tag(&mut f, "ZISRAWFILE");
    push_u64(&mut f, 512);
    push_u64(&mut f, 0);
    push_u32(&mut f, 1);
    push_u32(&mut f, 0);
    pad_to(&mut f, 32 + 16);
    f.extend_from_slice(&TEST_GUID);
    f.extend_from_slice(&TEST_GUID);
    push_i32(&mut f, 0);
    push_u64(&mut f, 1024);
    push_u64(&mut f, 2048);
    push_i32(&mut f, 0);
    push_u64(&mut f, 0);
    pad_to(&mut f, 32 + 512);
    f
}

#[test]
fn minimal_header_parses() {
    let f = minimal_header_file();
    let s = Segment::new(&f, 0).unwrap();
    assert_eq!(s.allocated_size, 512);
    // A zero used size defaults to the allocated size.
    assert_eq!(s.used_size, 512);
    assert_eq!(s.pos, 0);
    match s.block {
        SegmentBlock::FileHeader(hd) => {
            assert_eq!(hd.version, [1, 0]);
            assert_eq!(hd.PrimaryFileGuid, hd.FileGuid);
            assert_eq!(hd.FileGuid, Guid::from_bytes(&TEST_GUID));
            assert_eq!(hd.FilePart, 0);
            assert_eq!(hd.DirectoryPosition, 1024);
            assert_eq!(hd.MetadataPosition, 2048);
            assert!(!hd.UpdatePending);
            assert_eq!(hd.AttachmentDirectoryPosition, 0);
        },
        _ => panic!("expected a file header"),
    }
}

#[test]
fn guid_round_trips_through_its_bytes() {
    let g = Guid::from_bytes(&TEST_GUID);
    assert_eq!(g.to_bytes(), TEST_GUID.to_vec());
    assert_eq!(Guid::from_bytes(&g.to_bytes()), g);
}

#[test]
fn unknown_tag_parses_to_deleted() {
    let mut f = Vec::new();
    push_tag(&mut f, "ZISRAWMYSTERY");
    push_u64(&mut f, 64);
    push_u64(&mut f, 7);
    pad_to(&mut f, 32 + 64);
    let s = Segment::new(&f, 0).unwrap();
    assert!(matches!(s.block, SegmentBlock::DELETED));
    // The segment spans its 32-byte header plus the allocated payload.
    assert_eq!(s.allocated_size, 64);
    assert_eq!(s.used_size, 7);
    // A file that ends inside the allocated span does not parse.
    let short = f[..f.len() - 1].to_vec();
    assert!(matches!(Segment::new(&short, 0), Err(Error::Io(_))));
}

/// A directory segment with two entries, each carrying two dimensions.
fn directory_file() -> Vec<u8> {
    let mut f = Vec::new();
    push_tag(&mut f, "ZISRAWDIRECTORY");
    // Each entry is 32 + 2 * 20 bytes; the payload is 128 + 2 * 72.
    push_u64(&mut f, 128 + 2 * 72);
    push_u64(&mut f, 0);
    push_i32(&mut f, 2);
    pad_to(&mut f, 32 + 128);
    for k in 0..2u8 {
        // Entry head.
        f.extend_from_slice(b"DV");
        push_i32(&mut f, 1);
        push_u64(&mut f, 5000 + k as u64);
        push_i32(&mut f, 0);
        push_i32(&mut f, 0);
        f.push(k);
        let here = f.len();
        pad_to(&mut f, here + 5);
        push_u32(&mut f, 2);
        // Two dimensions.
        f.extend_from_slice(b"X\0\0\0");
        push_i32(&mut f, 0);
        push_u32(&mut f, 100 + k as u32);
        push_u32(&mut f, 1.5f32.to_bits());
        push_u32(&mut f, 100 + k as u32);
        f.extend_from_slice(b"Y\0\0\0");
        push_i32(&mut f, 4);
        push_u32(&mut f, 200);
        push_u32(&mut f, 0);
        push_u32(&mut f, 200);
    }
    f
}

#[test]
fn directory_lists_entries_in_order() {
    let f = directory_file();
    let s = Segment::new(&f, 0).unwrap();
    match s.block {
        SegmentBlock::Directory(d) => {
            assert_eq!(d.Entries.len(), 2);
            assert_eq!(d.Entries[0].SchemaType, "DV");
            assert_eq!(d.Entries[0].FilePosition, 5000);
            assert_eq!(d.Entries[1].FilePosition, 5001);
            assert_eq!(d.Entries[0].PyramidType, 0);
            assert_eq!(d.Entries[1].PyramidType, 1);
            assert_eq!(d.Entries[0].dimension_map.len(), 2);
            assert_eq!(d.Entries[0].dimension_map[0].Dimension, "X");
            assert_eq!(d.Entries[0].dimension_map[0].Size, 100);
            assert_eq!(d.Entries[1].dimension_map[0].Size, 101);
            assert_eq!(d.Entries[0].dimension_map[1].Dimension, "Y");
            assert_eq!(d.Entries[0].dimension_map[1].Start, 4);
            // The start coordinate is kept as its bit pattern, and reads
            // back as the float it was written from.
            assert_eq!(f32::from_bits(d.Entries[0].dimension_map[0].StartCoordinate), 1.5);
        },
        _ => panic!("expected a directory"),
    }
}

/// A sub-block segment whose recorded pixel data size reaches past the
/// end of the file: parsing must still succeed, because the data is only
/// recorded, not read.
fn truncated_sub_block_file() -> Vec<u8> {
    let mut f = Vec::new();
    push_tag(&mut f, "ZISRAWSUBBLOCK");
    // Payload: 256 bytes of header room plus 4 bytes of metadata XML.
    push_u64(&mut f, 260);
    push_u64(&mut f, 0);
    push_u32(&mut f, 4);
    push_u32(&mut f, 0);
    push_u64(&mut f, 1000);
    // The inline entry, with no dimensions.
    f.extend_from_slice(b"DV");
    push_i32(&mut f, 1);
    push_u64(&mut f, 0);
    push_i32(&mut f, 0);
    push_i32(&mut f, 0);
    f.push(0);
    pad_to(&mut f, 32 + 16 + 28);
    push_u32(&mut f, 0);
    pad_to(&mut f, 32 + 256);
    f.extend_from_slice(b"<a/>");
    f
}

#[test]
fn sub_block_reads_no_pixel_data() {
    let f = truncated_sub_block_file();
    let s = Segment::new(&f, 0).unwrap();
    match s.block {
        SegmentBlock::ImageSubBlock(mut sb) => {
            assert_eq!(sb.Entry.SchemaType, "DV");
            assert_eq!(sb.Metadata.source, "<a/>");
            // The recorded data reaches past the end of the file, so only
            // an explicit fetch fails.
            assert!(matches!(sb.Data.get(&f), Err(Error::Io(_))));
            assert!(sb.Attachment.is_none());
        },
        _ => panic!("expected a sub-block"),
    }
}

#[test]
fn sub_block_data_materialises_when_present() {
    let mut f = truncated_sub_block_file();
    // Rewrite the data size to three bytes and append them.
    f[40..48].copy_from_slice(&3u64.to_le_bytes());
    f.extend_from_slice(&[9, 8, 7]);
    let s = Segment::new(&f, 0).unwrap();
    match s.block {
        SegmentBlock::ImageSubBlock(mut sb) => {
            assert_eq!(sb.Data.get(&f).unwrap(), &vec![9u8, 8, 7]);
        },
        _ => panic!("expected a sub-block"),
    }
}

#[test]
fn segment_past_the_end_is_an_io_error() {
    let f = minimal_header_file();
    assert!(matches!(Segment::new(&f, 100000), Err(Error::Io(_))));
}

#[test]
fn dimension_lookup_resolves_by_name() {
    let f = directory_file();
    let s = Segment::new(&f, 0).unwrap();
    match s.block {
        SegmentBlock::Directory(d) => {
            let x = d.Entries[0].dimension("X").expect("X is recorded");
            assert_eq!(x.Size, 100);
            let y = d.Entries[0].dimension("Y").expect("Y is recorded");
            assert_eq!(y.Start, 4);
            assert!(d.Entries[0].dimension("M").is_none());
        },
        _ => panic!("expected a directory"),
    }
}

#[test]
fn truncated_metadata_with_no_xml_still_parses() {
    // The metadata layout skips to offset 256 before the XML text; with
    // no text recorded, a segment whose allocated payload ends earlier
    // still parses, to an empty XML source.
    let mut f = Vec::new();
    push_tag(&mut f, "ZISRAWMETADATA");
    push_u64(&mut f, 4);
    push_u64(&mut f, 0);
    push_i32(&mut f, 0);
    let s = Segment::new(&f, 0).unwrap();
    match s.block {
        SegmentBlock::Metadata(m) => {
            assert_eq!(m.cache.source, "");
        },
        _ => panic!("expected metadata"),
    }
}

#[test]
fn payload_overrunning_the_allocated_size_is_a_format_error() {
    // A directory that records one entry but allocates no room for it is
    // malformed: its structures would overrun the allocated size.
    let mut f = Vec::new();
    push_tag(&mut f, "ZISRAWDIRECTORY");
    push_u64(&mut f, 128);
    push_u64(&mut f, 0);
    push_i32(&mut f, 1);
    pad_to(&mut f, 32 + 128);
    // Plenty of file remains after the allocated span; it must not be read.
    pad_to(&mut f, 32 + 128 + 72);
    assert!(matches!(Segment::new(&f, 0), Err(Error::Format(_))));
}
