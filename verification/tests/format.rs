//! Tests of the byte, buffer and text layers: endian round trips, the
//! forward-only window discipline, NUL-padded ASCII fields, decimal
//! parsing, and the memoiser.

use zisraw::basic::Cached;
use zisraw::blockbuf::BlockBuf;
use zisraw::blockbuf::DataFromFile;
use zisraw::bytes::ByteSwapper;
use zisraw::text::ascii_field;
use zisraw::text::ascii_lowercase;
use zisraw::text::parse_i32;
use zisraw::text::parse_u64;
use zisraw::text::parse_usize;
use zisraw::Endian;
use zisraw::Error;

fn file(bytes: &[u8]) -> Vec<u8> {
    bytes.to_vec()
}

#[test]
fn swap_bytes_reverses() {
    assert_eq!(<u16 as ByteSwapper>::swap_bytes(0x1234), 0x3412u16);
    assert_eq!(<u32 as ByteSwapper>::swap_bytes(0x12345678), 0x78563412u32);
    assert_eq!(
        <u64 as ByteSwapper>::swap_bytes(0x0102030405060708),
        0x0807060504030201u64
    );
    assert_eq!(<i16 as ByteSwapper>::swap_bytes(-2), i16::from_le_bytes([0xFF, 0xFE]));
    assert_eq!(<u8 as ByteSwapper>::swap_bytes(7), 7u8);
}

#[test]
fn scalar_little_endian() {
    let data = file(&[0x78, 0x56, 0x34, 0x12]);
    let mut b = BlockBuf::new(&data, 0, Endian::Little);
    let v: u32 = b.get_scalar().unwrap();
    assert_eq!(v, 0x12345678);
}

#[test]
fn scalar_big_endian() {
    let data = file(&[0x12, 0x34, 0x56, 0x78]);
    let mut b = BlockBuf::new(&data, 0, Endian::Big);
    let v: u32 = b.get_scalar().unwrap();
    assert_eq!(v, 0x12345678);
}

#[test]
fn scalar_round_trip_each_width() {
    // parse(bytes(v, endian)) == v, exercised on the machine for both
    // byte orders and several widths.
    let le = 0x0102030405060708u64.to_le_bytes().to_vec();
    let mut b = BlockBuf::new(&le, 0, Endian::Little);
    let v: u64 = b.get_scalar().unwrap();
    assert_eq!(v, 0x0102030405060708);

    let be: Vec<u8> = 0x0102030405060708u64.to_le_bytes().iter().rev().cloned().collect();
    let mut b = BlockBuf::new(&be, 0, Endian::Big);
    let v: u64 = b.get_scalar().unwrap();
    assert_eq!(v, 0x0102030405060708);

    let le = (-123456789i64).to_le_bytes().to_vec();
    let mut b = BlockBuf::new(&le, 0, Endian::Little);
    let v: i64 = b.get_scalar().unwrap();
    assert_eq!(v, -123456789);

    let le = 0x0102030405060708090a0b0c0d0e0f10u128.to_le_bytes().to_vec();
    let mut b = BlockBuf::new(&le, 0, Endian::Little);
    let v: u128 = b.get_scalar().unwrap();
    assert_eq!(v, 0x0102030405060708090a0b0c0d0e0f10);
}

#[test]
fn backward_skip_rejected_and_position_kept() {
    // A buffer at position 100 asked to skip to 40 reports a backward
    // skip and does not advance.
    let data = vec![0u8; 200];
    let mut b = BlockBuf::new(&data, 0, Endian::Little);
    b.skip_to(100).unwrap();
    let r = b.skip_to(40);
    assert!(matches!(r, Err(Error::BackwardsSkip)));
    assert_eq!(b.drained_count(), 100);
    // Forward skips still work afterwards.
    b.skip_to(150).unwrap();
    assert_eq!(b.drained_count(), 150);
}

#[test]
fn drain_short_window_fails_without_consuming() {
    let data = file(&[1, 2, 3]);
    let mut b = BlockBuf::new(&data, 0, Endian::Little);
    assert!(matches!(b.drain(4), Err(Error::Io(_))));
    assert_eq!(b.drained_count(), 0);
    let got = b.drain(3).unwrap();
    assert_eq!(got, vec![1, 2, 3]);
}

#[test]
fn skip_past_window_end_is_taken_and_reads_there_fail() {
    // A forward skip is never rejected; the window simply has nothing
    // left to read, except that reading nothing still succeeds.
    let data = vec![0u8; 10];
    let mut b = BlockBuf::new(&data, 0, Endian::Little);
    b.skip_to(11).unwrap();
    assert_eq!(b.drained_count(), 11);
    assert!(matches!(b.drain(1), Err(Error::Io(_))));
    assert!(b.drain(0).unwrap().is_empty());
}

#[test]
fn construction_never_fails() {
    // A window opened past the file's end is empty; the failure comes
    // from the first read, not from construction.
    let data = vec![0u8; 4];
    let mut b = BlockBuf::new(&data, 100, Endian::Little);
    assert_eq!(b.drained_count(), 0);
    assert!(matches!(b.drain(1), Err(Error::Io(_))));
}

#[test]
fn resize_checks_availability() {
    let data = vec![0u8; 64];
    let mut b = BlockBuf::new(&data, 16, Endian::Little);
    assert_eq!(b.resize(48).unwrap(), 48);
    assert!(matches!(b.resize(49), Err(Error::Io(_))));
}

#[test]
fn get_vec_reads_scalars_in_order() {
    let data = file(&[1, 0, 2, 0, 3, 0]);
    let mut b = BlockBuf::new(&data, 0, Endian::Little);
    let v: Vec<u16> = b.get_vec(3).unwrap();
    assert_eq!(v, vec![1u16, 2, 3]);
    let data = file(&[1, 0]);
    let mut b = BlockBuf::new(&data, 0, Endian::Little);
    let r: Result<Vec<u16>, Error> = b.get_vec(2);
    assert!(r.is_err());
    assert_eq!(b.drained_count(), 0);
}

#[test]
fn ascii_trim_keeps_bytes_before_first_nul() {
    // A field of k non-NUL bytes followed by NULs parses to exactly its
    // first k bytes, decoded.
    let field = vec![b'Z', b'I', b'S', 0, 0, 0];
    assert_eq!(ascii_field(&field).unwrap(), "ZIS");
    // An interior NUL ends the field even when bytes follow.
    let field = vec![b'A', 0, b'B'];
    assert_eq!(ascii_field(&field).unwrap(), "A");
    // All NULs decode to the empty string.
    let field = vec![0u8; 4];
    assert_eq!(ascii_field(&field).unwrap(), "");
    // A non-ASCII byte before the first NUL is a format error.
    let field = vec![b'A', 0xC3, 0xA9, 0];
    assert!(matches!(ascii_field(&field), Err(Error::Format(_))));
    // A non-ASCII byte after the first NUL is discarded, not decoded.
    let field = vec![b'A', 0, 0xFF];
    assert_eq!(ascii_field(&field).unwrap(), "A");
}

#[test]
fn get_ascii_drains_fixed_width() {
    let data = file(&[b'D', b'V', 0, 0, 9, 9]);
    let mut b = BlockBuf::new(&data, 0, Endian::Little);
    let s = b.get_ascii(4).unwrap();
    assert_eq!(s, "DV");
    assert_eq!(b.drained_count(), 4);
}

#[test]
fn get_utf8_decodes_or_reports_format() {
    let data = file("hé!".as_bytes());
    let mut b = BlockBuf::new(&data, 0, Endian::Little);
    let s = b.get_utf8(4).unwrap();
    assert_eq!(s, "hé!");
    let data = file(&[0xFF, 0xFE]);
    let mut b = BlockBuf::new(&data, 0, Endian::Little);
    assert!(matches!(b.get_utf8(2), Err(Error::Format(_))));
}

#[test]
fn parse_u64_follows_the_decimal_grammar() {
    assert_eq!(parse_u64("0").unwrap(), 0);
    assert_eq!(parse_u64("18446744073709551615").unwrap(), u64::MAX);
    assert_eq!(parse_u64("+42").unwrap(), 42);
    assert_eq!(parse_u64("007").unwrap(), 7);
    assert!(matches!(parse_u64("18446744073709551616"), Err(Error::Parse(_))));
    assert!(matches!(parse_u64(""), Err(Error::Parse(_))));
    assert!(matches!(parse_u64("+"), Err(Error::Parse(_))));
    assert!(matches!(parse_u64(" 4"), Err(Error::Parse(_))));
    assert!(matches!(parse_u64("-1"), Err(Error::Parse(_))));
    assert!(matches!(parse_u64("4x"), Err(Error::Parse(_))));
}

#[test]
fn parse_i32_covers_both_ends_of_the_range() {
    assert_eq!(parse_i32("-2147483648").unwrap(), i32::MIN);
    assert_eq!(parse_i32("2147483647").unwrap(), i32::MAX);
    assert_eq!(parse_i32("-0").unwrap(), 0);
    assert_eq!(parse_i32("+5").unwrap(), 5);
    assert!(parse_i32("2147483648").is_err());
    assert!(parse_i32("-2147483649").is_err());
    assert!(parse_i32("-").is_err());
}

#[test]
fn parse_usize_bounds() {
    assert_eq!(parse_usize("4").unwrap(), 4usize);
    assert!(parse_usize("99999999999999999999").is_err());
}

#[test]
fn ascii_lowercase_touches_only_capitals() {
    assert_eq!(ascii_lowercase("X"), "x");
    assert_eq!(ascii_lowercase("Az09é"), "az09é");
}

fn produce_next(s: &u32) -> Result<u32, Error> {
    Ok(*s + 1)
}

fn produce_same(s: &u32) -> Result<u32, Error> {
    Ok(*s)
}

fn produce_fail(_s: &u32) -> Result<u32, Error> {
    Err(Error::Format("nothing to produce".to_owned()))
}

#[test]
fn cached_runs_the_producer_once() {
    let mut c: Cached<u32, u32> = Cached::new(41);
    assert!(c.store.is_none());
    assert_eq!(*c.get(produce_next).unwrap(), 42);
    assert_eq!(c.store, Some(42));
    // A second call returns the retained value.
    assert_eq!(*c.get(produce_next).unwrap(), 42);
}

#[test]
fn cached_failure_leaves_the_store_empty() {
    let mut c: Cached<u32, u32> = Cached::new(7);
    assert!(c.get(produce_fail).is_err());
    assert!(c.store.is_none());
    // A later call may retry and succeed.
    assert_eq!(*c.get(produce_same).unwrap(), 7);
}

#[test]
fn lazy_slice_reads_only_when_asked() {
    let mut d = DataFromFile::new(2, 3);
    let data = file(&[0, 1, 2, 3, 4, 5]);
    assert_eq!(d.get(&data).unwrap(), &vec![2u8, 3, 4]);
    // The value is retained.
    assert_eq!(d.get(&data).unwrap(), &vec![2u8, 3, 4]);
    // A slice past the end fails only when fetched, and stores nothing.
    let mut short = DataFromFile::new(4, 3);
    assert!(matches!(short.get(&data), Err(Error::Io(_))));
}

#[test]
fn splice_starts_an_independent_window() {
    let data = vec![1u8, 2, 3, 4, 5, 6];
    let mut b = BlockBuf::new(&data, 0, Endian::Little);
    b.skip_to(2).unwrap();
    let mut sub = b.splice(2).unwrap();
    assert_eq!(b.drained_count(), 4);
    assert_eq!(sub.drain(2).unwrap(), vec![3u8, 4]);
    assert!(matches!(sub.drain(1), Err(Error::Io(_))));
    // The parent window continues after the spliced bytes.
    assert_eq!(b.drain(2).unwrap(), vec![5u8, 6]);
}

#[test]
fn splice_all_moves_the_origin_forward() {
    let data = vec![7u8, 8, 9];
    let mut b = BlockBuf::new(&data, 0, Endian::Little);
    b.skip_to(1).unwrap();
    let mut rest = b.splice_all();
    assert_eq!(rest.drained_count(), 0);
    assert_eq!(rest.drain(2).unwrap(), vec![8u8, 9]);
}

#[test]
fn cached_data_records_the_absolute_position() {
    let data = vec![0u8, 1, 2, 3, 4, 5, 6, 7];
    let mut b = BlockBuf::new(&data, 2, Endian::Little);
    b.skip_to(1).unwrap();
    let mut d = b.get_cached_data(2);
    // The handle was taken at file position 3, and the window advanced
    // over it without reading.
    assert_eq!(b.drained_count(), 3);
    assert_eq!(d.get(&data).unwrap(), &vec![3u8, 4]);
}

#[test]
fn skip_sequences_never_move_backwards() {
    // Drive the window with a pseudo-random mix of skips: a target at or
    // past the drained count advances to it exactly; a target before it
    // is rejected and changes nothing.
    let data = vec![0u8; 1024];
    let mut b = BlockBuf::new(&data, 0, Endian::Little);
    let mut state: u64 = 0x2545F4914F6CDD1D;
    for _ in 0..200 {
        state = state.wrapping_mul(6364136223846793005).wrapping_add(1442695040888963407);
        let target = state % 1024;
        let before = b.drained_count() as u64;
        match b.skip_to(target) {
            Ok(()) => {
                assert!(target >= before);
                assert_eq!(b.drained_count() as u64, target);
            },
            Err(Error::BackwardsSkip) => {
                assert!(target < before);
                assert_eq!(b.drained_count() as u64, before);
            },
            Err(e) => panic!("unexpected error: {}", e.message()),
        }
    }
}
