//! The segment layer: the typed payloads of a ZISRAW container and their
//! parsers.
//!
//! Every segment of the container starts with a 32-byte header — a 16-byte
//! NUL-padded ASCII tag, then `allocated_size` and `used_size` as
//! little-endian `u64` — followed by `allocated_size` bytes of payload.
//! Each payload layout is stated here twice: as a specification function
//! over the payload's byte sequence, and as an executable parser over a
//! `BlockBuf` whose contract ties the two together. Payload offsets count
//! from the payload's start, so every parser starts on a fresh window.

use crate::basic::Cached;
use crate::blockbuf::BlockBuf;
use crate::blockbuf::DataFromFile;
use crate::text::all_ascii;
use crate::text::spec_ascii_chars;
use crate::text::spec_nul_trim;
use crate::text::str_eq;
use crate::xml::XmlElement;
use crate::Error;
use vstd::bytes::*;
use vstd::prelude::*;
use vstd::utf8::decode_utf8;
use vstd::utf8::valid_utf8;

verus! {

/// A 16-byte GUID, kept as the little-endian value of its raw bytes so that
/// it reconstructs them exactly.
#[derive(Clone, Copy, PartialEq, Eq, Structural, Debug)]
pub struct Guid {
    pub raw: u128,
}

impl Guid {
    /// The 16 raw bytes the GUID was read from.
    pub open spec fn spec_bytes(&self) -> Seq<u8> {
        spec_u128_to_le_bytes(self.raw)
    }

    /// The GUID denoted by 16 raw bytes.
    pub open spec fn spec_of(b: Seq<u8>) -> Guid {
        Guid { raw: spec_u128_from_le_bytes(b) }
    }

    /// The GUID read from exactly 16 raw bytes.
    pub fn from_bytes(b: &[u8]) -> (r: Guid)
        requires
            b@.len() == 16,
        ensures
            r == Guid::spec_of(b@),
    {
        Guid { raw: u128_from_le_bytes(b) }
    }

    /// The GUID's 16 raw bytes, exactly as they were read.
    pub fn to_bytes(&self) -> (r: Vec<u8>)
        ensures
            r@ == self.spec_bytes(),
            r@.len() == 16,
    {
        u128_to_le_bytes(self.raw)
    }
}

/// The 16 bytes at a GUID's slot reconstruct the GUID they were read as,
/// and a GUID's bytes read back as the same GUID.
pub proof fn lemma_guid_round_trip(b: Seq<u8>, g: Guid)
    requires
        b.len() == 16,
    ensures
        Guid::spec_of(b).spec_bytes() == b,
        Guid::spec_of(g.spec_bytes()) == g,
{
    lemma_auto_spec_u128_to_from_le_bytes();
    assert(spec_u128_to_le_bytes(g.raw).len() == 16);
}

/// How many bytes the schema-type field of a directory or attachment
/// entry occupies on disk. Some documents describe the field as wider;
/// the working layout reads two bytes.
pub const SCHEMA_TYPE_LEN: usize = 2;

/// The little-endian `u32` at `off`.
pub open spec fn le_u32_at(w: Seq<u8>, off: int) -> u32 {
    spec_u32_from_le_bytes(w.subrange(off, off + 4))
}

/// The little-endian `i32` at `off`.
pub open spec fn le_i32_at(w: Seq<u8>, off: int) -> i32 {
    le_u32_at(w, off) as i32
}

/// The little-endian `u64` at `off`.
pub open spec fn le_u64_at(w: Seq<u8>, off: int) -> u64 {
    spec_u64_from_le_bytes(w.subrange(off, off + 8))
}

/// The byte at `off`.
pub open spec fn u8_at(w: Seq<u8>, off: int) -> u8 {
    w[off]
}

/// The GUID at `off`.
pub open spec fn guid_at(w: Seq<u8>, off: int) -> Guid {
    Guid::spec_of(w.subrange(off, off + 16))
}

/// The string a NUL-padded ASCII field of `len` bytes at `off` denotes.
pub open spec fn ascii_at(w: Seq<u8>, off: int, len: int) -> Seq<char> {
    spec_ascii_chars(spec_nul_trim(w.subrange(off, off + len)))
}

/// Whether the ASCII field of `len` bytes at `off` is well formed.
pub open spec fn ascii_ok_at(w: Seq<u8>, off: int, len: int) -> bool {
    all_ascii(spec_nul_trim(w.subrange(off, off + len)))
}

/// The window's bytes from `off` on, or nothing where `off` lies past its
/// end — the view a sub-parse starting at `off` sees.
pub open spec fn suffix(w: Seq<u8>, off: int) -> Seq<u8> {
    if 0 <= off <= w.len() {
        w.skip(off)
    } else {
        Seq::empty()
    }
}

/// The file header's payload: the version pair, the two GUIDs, the file
/// part, and the positions of the directory, the metadata and the
/// attachment directory.
pub struct FileHeader {
    pub version: [u32; 2],
    pub PrimaryFileGuid: Guid,
    pub FileGuid: Guid,
    pub FilePart: i32,
    pub DirectoryPosition: u64,
    pub MetadataPosition: u64,
    pub UpdatePending: bool,
    pub AttachmentDirectoryPosition: u64,
}

/// The mathematical value of a file header.
#[verifier::ext_equal]
pub struct FileHeaderV {
    pub version: (u32, u32),
    pub PrimaryFileGuid: Guid,
    pub FileGuid: Guid,
    pub FilePart: i32,
    pub DirectoryPosition: u64,
    pub MetadataPosition: u64,
    pub UpdatePending: bool,
    pub AttachmentDirectoryPosition: u64,
}

impl View for FileHeader {
    type V = FileHeaderV;

    open spec fn view(&self) -> FileHeaderV {
        FileHeaderV {
            version: (self.version[0], self.version[1]),
            PrimaryFileGuid: self.PrimaryFileGuid,
            FileGuid: self.FileGuid,
            FilePart: self.FilePart,
            DirectoryPosition: self.DirectoryPosition,
            MetadataPosition: self.MetadataPosition,
            UpdatePending: self.UpdatePending,
            AttachmentDirectoryPosition: self.AttachmentDirectoryPosition,
        }
    }
}

/// How many payload bytes a file header occupies.
pub open spec fn spec_file_header_len() -> int {
    80
}

/// Whether a file header parses from the payload: nothing but enough bytes
/// is needed.
pub open spec fn spec_file_header_ok(p: Seq<u8>) -> bool {
    p.len() >= spec_file_header_len()
}

/// The file header a payload denotes: two version words, padding to offset
/// 16, the primary-file and this-file GUIDs, the file part, the directory
/// and metadata positions, the update-pending word, and the attachment
/// directory position.
pub open spec fn spec_file_header(p: Seq<u8>) -> FileHeaderV {
    FileHeaderV {
        version: (le_u32_at(p, 0), le_u32_at(p, 4)),
        PrimaryFileGuid: guid_at(p, 16),
        FileGuid: guid_at(p, 32),
        FilePart: le_i32_at(p, 48),
        DirectoryPosition: le_u64_at(p, 52),
        MetadataPosition: le_u64_at(p, 60),
        UpdatePending: le_i32_at(p, 68) != 0,
        AttachmentDirectoryPosition: le_u64_at(p, 72),
    }
}

impl FileHeader {
    /// Parse a file header from the start of a fresh payload window.
    pub fn read(b: &mut BlockBuf) -> (r: Result<FileHeader, Error>)
        requires
            old(b).spec_drained() == 0,
            old(b).spec_endianess() == crate::Endian::Little,
        ensures
            final(b).same_window(old(b)),
            r is Ok <==> spec_file_header_ok(old(b).window()),
            r is Ok ==> r->Ok_0@ == spec_file_header(old(b).window()) && final(b).spec_drained()
                == spec_file_header_len(),
            r is Err ==> r->Err_0.is_io(),
    {
        let ghost p = old(b).window();
        let v0: u32 = b.get_scalar()?;
        let v1: u32 = b.get_scalar()?;
        b.skip_to(16)?;
        let primary = b.drain(16)?;
        let this_guid = b.drain(16)?;
        let file_part: i32 = b.get_scalar()?;
        let directory_position: u64 = b.get_scalar()?;
        let metadata_position: u64 = b.get_scalar()?;
        let update_pending: i32 = b.get_scalar()?;
        let attachment_directory_position: u64 = b.get_scalar()?;
        let hd = FileHeader {
            version: [v0, v1],
            PrimaryFileGuid: Guid::from_bytes(primary.as_slice()),
            FileGuid: Guid::from_bytes(this_guid.as_slice()),
            FilePart: file_part,
            DirectoryPosition: directory_position,
            MetadataPosition: metadata_position,
            UpdatePending: update_pending != 0,
            AttachmentDirectoryPosition: attachment_directory_position,
        };
        proof {
            assert(p.subrange(0int, 4int) =~= p.subrange(0int, 0int + 4));
            assert(hd@ =~= spec_file_header(p)) by {
                assert(p.subrange(16int, 32int) =~= p.subrange(16int, 16int + 16));
                assert(p.subrange(32int, 48int) =~= p.subrange(32int, 32int + 16));
            }
        }
        Ok(hd)
    }
}


/// One dimension of a sub-block: a 4-byte ASCII name, the start index and
/// size, the start coordinate's IEEE-754 bit pattern (the library does not
/// interpret it), and the stored size.
pub struct DimensionEntryDV1 {
    pub Dimension: String,
    pub Start: i32,
    pub Size: u32,
    pub StartCoordinate: u32,
    pub StoredSize: u32,
}

/// The mathematical value of a dimension entry.
#[verifier::ext_equal]
pub struct DimensionEntryV {
    pub Dimension: Seq<char>,
    pub Start: i32,
    pub Size: u32,
    pub StartCoordinate: u32,
    pub StoredSize: u32,
}

impl View for DimensionEntryDV1 {
    type V = DimensionEntryV;

    open spec fn view(&self) -> DimensionEntryV {
        DimensionEntryV {
            Dimension: self.Dimension@,
            Start: self.Start,
            Size: self.Size,
            StartCoordinate: self.StartCoordinate,
            StoredSize: self.StoredSize,
        }
    }
}

/// Whether a dimension entry parses at `off`: twenty bytes, and an ASCII
/// name.
pub open spec fn spec_dim_entry_ok(w: Seq<u8>, off: int) -> bool {
    off + 20 <= w.len() && ascii_ok_at(w, off, 4)
}

/// The dimension entry at `off`: the name, then four little-endian words.
pub open spec fn spec_dim_entry(w: Seq<u8>, off: int) -> DimensionEntryV {
    DimensionEntryV {
        Dimension: ascii_at(w, off, 4),
        Start: le_i32_at(w, off + 4),
        Size: le_u32_at(w, off + 8),
        StartCoordinate: le_u32_at(w, off + 12),
        StoredSize: le_u32_at(w, off + 16),
    }
}

impl DimensionEntryDV1 {
    /// Parse a dimension entry at the window's current position.
    pub fn read(b: &mut BlockBuf) -> (r: Result<DimensionEntryDV1, Error>)
        requires
            old(b).spec_endianess() == crate::Endian::Little,
        ensures
            final(b).same_window(old(b)),
            r is Ok <==> spec_dim_entry_ok(old(b).window(), old(b).spec_drained()),
            r is Ok ==> r->Ok_0@ == spec_dim_entry(old(b).window(), old(b).spec_drained())
                && final(b).spec_drained() == old(b).spec_drained() + 20,
            r is Err ==> r->Err_0.is_io() || r->Err_0.is_format(),
    {
        let ghost w = old(b).window();
        let ghost off = old(b).spec_drained();
        let name = b.get_ascii(4)?;
        let start: i32 = b.get_scalar()?;
        let size: u32 = b.get_scalar()?;
        let start_coordinate: u32 = b.get_scalar()?;
        let stored_size: u32 = b.get_scalar()?;
        let e = DimensionEntryDV1 {
            Dimension: name,
            Start: start,
            Size: size,
            StartCoordinate: start_coordinate,
            StoredSize: stored_size,
        };
        proof {
            assert(e@ =~= spec_dim_entry(w, off)) by {
                assert(w.subrange(off, off + 4) == w.subrange(off, off + 4));
            }
        }
        Ok(e)
    }
}

/// One directory entry: a 2-byte ASCII schema type, the pixel type, the
/// sub-block segment's file position and part, the compression, the
/// pyramid word, and the dimension entries.
pub struct DirectoryEntryDV {
    pub SchemaType: String,
    pub PixelType: i32,
    pub FilePosition: u64,
    pub FilePart: i32,
    pub Compression: i32,
    pub PyramidType: u8,
    pub dimension_map: Vec<DimensionEntryDV1>,
}

/// The mathematical value of a directory entry.
#[verifier::ext_equal]
pub struct DirectoryEntryV {
    pub SchemaType: Seq<char>,
    pub PixelType: i32,
    pub FilePosition: u64,
    pub FilePart: i32,
    pub Compression: i32,
    pub PyramidType: u8,
    pub dimension_map: Seq<DimensionEntryV>,
}

impl View for DirectoryEntryDV {
    type V = DirectoryEntryV;

    open spec fn view(&self) -> DirectoryEntryV {
        DirectoryEntryV {
            SchemaType: self.SchemaType@,
            PixelType: self.PixelType,
            FilePosition: self.FilePosition,
            FilePart: self.FilePart,
            Compression: self.Compression,
            PyramidType: self.PyramidType,
            dimension_map: Seq::new(
                self.dimension_map@.len(),
                |i: int| self.dimension_map@[i]@,
            ),
        }
    }
}

/// Whether `n` dimension entries parse, one after the other, from `off`.
pub open spec fn spec_dims_ok(w: Seq<u8>, off: int, n: nat) -> bool
    decreases n,
{
    n == 0 || (spec_dim_entry_ok(w, off) && spec_dims_ok(w, off + 20, (n - 1) as nat))
}

/// The `n` dimension entries at `off`, in order.
pub open spec fn spec_dims(w: Seq<u8>, off: int, n: nat) -> Seq<DimensionEntryV>
    decreases n,
{
    if n == 0 {
        Seq::empty()
    } else {
        seq![spec_dim_entry(w, off)] + spec_dims(w, off + 20, (n - 1) as nat)
    }
}

/// Each of `n` parsed dimension entries sits 20 bytes after the one before.
pub proof fn lemma_dims_facts(w: Seq<u8>, off: int, n: nat)
    requires
        spec_dims_ok(w, off, n),
    ensures
        spec_dims(w, off, n).len() == n,
        forall|i: int| 0 <= i < n ==> #[trigger] spec_dim_entry_ok(w, off + 20 * i),
        forall|i: int|
            0 <= i < n ==> spec_dims(w, off, n)[i] == #[trigger] spec_dim_entry(w, off + 20 * i),
        n > 0 ==> off + 20 * n <= w.len(),
    decreases n,
{
    if n > 0 {
        lemma_dims_facts(w, off + 20, (n - 1) as nat);
        assert forall|i: int| 0 <= i < n implies #[trigger] spec_dim_entry_ok(w, off + 20 * i) by {
            if i > 0 {
                assert(spec_dim_entry_ok(w, off + 20 + 20 * (i - 1)));
            }
        }
        assert forall|i: int| 0 <= i < n implies spec_dims(w, off, n)[i] == #[trigger] spec_dim_entry(
            w,
            off + 20 * i,
        ) by {
            if i > 0 {
                assert(spec_dims(w, off + 20, (n - 1) as nat)[i - 1] == spec_dim_entry(
                    w,
                    off + 20 + 20 * (i - 1),
                ));
            }
        }
    }
}

/// Whether a directory entry parses from a fresh payload window.
pub open spec fn spec_dir_entry_ok(p: Seq<u8>) -> bool {
    &&& p.len() >= 32
    &&& ascii_ok_at(p, 0, SCHEMA_TYPE_LEN as int)
    &&& spec_dims_ok(p, 32, le_u32_at(p, 28) as nat)
}

/// How many bytes a directory entry occupies: a 32-byte head, then 20
/// bytes per dimension.
pub open spec fn spec_dir_entry_len(p: Seq<u8>) -> int {
    32 + 20 * (le_u32_at(p, 28) as int)
}

/// The directory entry a fresh window denotes.
pub open spec fn spec_dir_entry(p: Seq<u8>) -> DirectoryEntryV {
    DirectoryEntryV {
        SchemaType: ascii_at(p, 0, SCHEMA_TYPE_LEN as int),
        PixelType: le_i32_at(p, 2),
        FilePosition: le_u64_at(p, 6),
        FilePart: le_i32_at(p, 14),
        Compression: le_i32_at(p, 18),
        PyramidType: u8_at(p, 22),
        dimension_map: spec_dims(p, 32, le_u32_at(p, 28) as nat),
    }
}

impl DirectoryEntryDV {
    /// Parse a directory entry from the start of a fresh window.
    #[verifier::loop_isolation(false)]
    pub fn read(b: &mut BlockBuf) -> (r: Result<DirectoryEntryDV, Error>)
        requires
            old(b).spec_drained() == 0,
            old(b).spec_endianess() == crate::Endian::Little,
        ensures
            final(b).same_window(old(b)),
            r is Ok <==> spec_dir_entry_ok(old(b).window()),
            r is Ok ==> r->Ok_0@ == spec_dir_entry(old(b).window()) && final(b).spec_drained()
                == spec_dir_entry_len(old(b).window()) && final(b).spec_drained() <= old(
                b,
            ).window().len(),
            r is Err ==> r->Err_0.is_io() || r->Err_0.is_format(),
    {
        let ghost p = old(b).window();
        let schema_type = b.get_ascii(SCHEMA_TYPE_LEN)?;
        let pixel_type: i32 = b.get_scalar()?;
        let file_position: u64 = b.get_scalar()?;
        let file_part: i32 = b.get_scalar()?;
        let compression: i32 = b.get_scalar()?;
        let pyramid_type: u8 = b.get_scalar()?;
        b.skip_to(28)?;
        let dimension_count: u32 = b.get_scalar()?;
        let ghost n = dimension_count as nat;
        let count = dimension_count as usize;
        let mut dims: Vec<DimensionEntryDV1> = Vec::new();
        let mut i: usize = 0;
        while i < count
            invariant
                i <= count,
                b.same_window(old(b)),
                b.spec_drained() == 32 + 20 * i,
                b.spec_drained() <= p.len(),
                spec_dims_ok(p, 32, i as nat),
                dims@.len() == i,
                forall|k: int|
                    0 <= k < i ==> #[trigger] dims@[k]@ == spec_dim_entry(p, 32 + 20 * k),
            decreases count - i,
        {
            let d = match DimensionEntryDV1::read(b) {
                Ok(d) => d,
                Err(e) => {
                    proof {
                        // A failed dimension read refutes the whole entry:
                        // the dimensions before this one did parse.
                        if spec_dims_ok(p, 32, n) {
                            lemma_dims_facts(p, 32, n);
                        }
                        lemma_dims_prefix_broken(p, 32, n, i as nat);
                    }
                    return Err(e);
                },
            };
            dims.push(d);
            proof {
                lemma_dims_snoc(p, 32, i as nat);
            }
            i = i + 1;
        }
        let e = DirectoryEntryDV {
            SchemaType: schema_type,
            PixelType: pixel_type,
            FilePosition: file_position,
            FilePart: file_part,
            Compression: compression,
            PyramidType: pyramid_type,
            dimension_map: dims,
        };
        proof {
            lemma_dims_facts(p, 32, n);
            assert(e@ =~= spec_dir_entry(p)) by {
                assert(e@.dimension_map =~= spec_dims(p, 32, n));
            }
        }
        Ok(e)
    }
}

/// The dimension entry for a name, as a keyed lookup over the entries:
/// the last entry with that name, as a mapping built by insertion would
/// keep it.
pub open spec fn spec_dimension(dims: Seq<DimensionEntryV>, name: Seq<char>) -> Option<
    DimensionEntryV,
>
    decreases dims.len(),
{
    if dims.len() == 0 {
        None
    } else if dims.last().Dimension == name {
        Some(dims.last())
    } else {
        spec_dimension(dims.drop_last(), name)
    }
}

impl DirectoryEntryDV {
    /// The dimension with the given name, where the entry has one; a name
    /// recorded twice resolves to its last record.
    pub fn dimension(&self, name: &str) -> (r: Option<&DimensionEntryDV1>)
        ensures
            match r {
                Some(d) => spec_dimension(self@.dimension_map, name@) == Some(d@),
                None => spec_dimension(self@.dimension_map, name@) is None,
            },
    {
        let ghost ds = self@.dimension_map;
        let mut i: usize = self.dimension_map.len();
        proof {
            assert(ds.take(ds.len() as int) =~= ds);
        }
        while i > 0
            invariant
                i <= self.dimension_map@.len(),
                ds == self@.dimension_map,
                ds.len() == self.dimension_map@.len(),
                spec_dimension(ds, name@) == spec_dimension(ds.take(i as int), name@),
            decreases i,
        {
            i = i - 1;
            proof {
                assert(ds.take(i + 1).last() == ds[i as int]);
                assert(ds[i as int] == self.dimension_map@[i as int]@);
                assert(ds.take(i + 1).drop_last() =~= ds.take(i as int));
            }
            if crate::text::str_eq(self.dimension_map[i].Dimension.as_str(), name) {
                return Some(&self.dimension_map[i]);
            }
        }
        proof {
            assert(ds.take(0) =~= Seq::<DimensionEntryV>::empty());
        }
        None
    }
}

/// Extending a parsed run of dimensions by one parsed entry keeps the run
/// parsed, and appends that entry's value.
pub proof fn lemma_dims_snoc(w: Seq<u8>, off: int, i: nat)
    requires
        spec_dims_ok(w, off, i),
        spec_dim_entry_ok(w, off + 20 * i),
    ensures
        spec_dims_ok(w, off, (i + 1) as nat),
        spec_dims(w, off, (i + 1) as nat) == spec_dims(w, off, i).push(
            spec_dim_entry(w, off + 20 * i),
        ),
    decreases i,
{
    if i == 0 {
        assert(spec_dims_ok(w, off + 20, 0));
        assert(spec_dims(w, off + 20, 0) =~= Seq::<DimensionEntryV>::empty());
        assert(spec_dims_ok(w, off, 1));
        assert(spec_dims(w, off, 1) =~= spec_dims(w, off, 0).push(spec_dim_entry(w, off)));
    } else {
        assert(spec_dim_entry_ok(w, off + 20 + 20 * (i - 1)));
        lemma_dims_snoc(w, off + 20, (i - 1) as nat);
        assert(spec_dims_ok(w, off, (i + 1) as nat));
        assert(spec_dims(w, off, (i + 1) as nat) =~= spec_dims(w, off, i).push(
            spec_dim_entry(w, off + 20 * i),
        ));
    }
}

/// A run of `n` dimensions cannot parse when its member at `i` does not.
pub proof fn lemma_dims_prefix_broken(w: Seq<u8>, off: int, n: nat, i: nat)
    requires
        i < n,
        !spec_dim_entry_ok(w, off + 20 * i),
    ensures
        !spec_dims_ok(w, off, n),
{
    if spec_dims_ok(w, off, n) {
        lemma_dims_facts(w, off, n);
    }
}


/// The sub-block directory: every sub-block's directory entry, in file
/// order.
pub struct Directory {
    pub Entries: Vec<DirectoryEntryDV>,
}

/// The mathematical value of a directory.
#[verifier::ext_equal]
pub struct DirectoryV {
    pub Entries: Seq<DirectoryEntryV>,
}

impl View for Directory {
    type V = DirectoryV;

    open spec fn view(&self) -> DirectoryV {
        DirectoryV { Entries: Seq::new(self.Entries@.len(), |i: int| self.Entries@[i]@) }
    }
}

/// A parsed directory entry spans at least its head and at most the
/// window.
pub proof fn lemma_dir_entry_len_ok(p: Seq<u8>)
    requires
        spec_dir_entry_ok(p),
    ensures
        32 <= spec_dir_entry_len(p) <= p.len(),
{
    let n = le_u32_at(p, 28) as nat;
    lemma_dims_facts(p, 32, n);
}

/// Whether `n` directory entries parse, one after the other, from `off`.
pub open spec fn spec_dir_entries_ok(p: Seq<u8>, off: int, n: nat) -> bool
    decreases n,
{
    n == 0 || (0 <= off <= p.len() && spec_dir_entry_ok(p.skip(off)) && spec_dir_entries_ok(
        p,
        off + spec_dir_entry_len(p.skip(off)),
        (n - 1) as nat,
    ))
}

/// The `n` directory entries from `off`, in order.
pub open spec fn spec_dir_entries(p: Seq<u8>, off: int, n: nat) -> Seq<DirectoryEntryV>
    decreases n,
{
    if n == 0 {
        Seq::empty()
    } else {
        seq![spec_dir_entry(p.skip(off))] + spec_dir_entries(
            p,
            off + spec_dir_entry_len(p.skip(off)),
            (n - 1) as nat,
        )
    }
}

/// Where the window stands after `n` directory entries from `off`.
pub open spec fn spec_dir_entries_end(p: Seq<u8>, off: int, n: nat) -> int
    decreases n,
{
    if n == 0 {
        off
    } else {
        spec_dir_entries_end(p, off + spec_dir_entry_len(p.skip(off)), (n - 1) as nat)
    }
}

/// Extending a parsed run of directory entries by one parsed entry keeps
/// the run parsed and appends that entry's value.
pub proof fn lemma_dir_entries_snoc(p: Seq<u8>, off: int, i: nat)
    requires
        spec_dir_entries_ok(p, off, i),
        0 <= off <= p.len(),
        spec_dir_entries_end(p, off, i) <= p.len(),
        spec_dir_entry_ok(p.skip(spec_dir_entries_end(p, off, i))),
    ensures
        spec_dir_entries_ok(p, off, (i + 1) as nat),
        spec_dir_entries(p, off, (i + 1) as nat) == spec_dir_entries(p, off, i).push(
            spec_dir_entry(p.skip(spec_dir_entries_end(p, off, i))),
        ),
        spec_dir_entries_end(p, off, (i + 1) as nat) == spec_dir_entries_end(p, off, i)
            + spec_dir_entry_len(p.skip(spec_dir_entries_end(p, off, i))),
    decreases i,
{
    if i == 0 {
        let off2 = off + spec_dir_entry_len(p.skip(off));
        assert(spec_dir_entries_ok(p, off2, 0));
        assert(spec_dir_entries(p, off2, 0) =~= Seq::<DirectoryEntryV>::empty());
        assert(spec_dir_entries(p, off, 1) =~= spec_dir_entries(p, off, 0).push(
            spec_dir_entry(p.skip(off)),
        ));
        assert(spec_dir_entries_end(p, off, 0) == off);
        assert(spec_dir_entries_end(p, off, 1) == spec_dir_entries_end(p, off2, 0));
        assert(spec_dir_entries_end(p, off2, 0) == off2);
    } else {
        let off2 = off + spec_dir_entry_len(p.skip(off));
        lemma_dir_entry_len_ok(p.skip(off));
        lemma_dir_entries_snoc(p, off2, (i - 1) as nat);
        assert(spec_dir_entries_end(p, off, i) == spec_dir_entries_end(
            p,
            off2,
            (i - 1) as nat,
        ));
        assert(spec_dir_entries_end(p, off, (i + 1) as nat) == spec_dir_entries_end(
            p,
            off2,
            i,
        ));
        assert(spec_dir_entries(p, off, (i + 1) as nat) =~= spec_dir_entries(p, off, i).push(
            spec_dir_entry(p.skip(spec_dir_entries_end(p, off, i))),
        ));
    }
}

/// A run of `n` directory entries cannot parse when the entry after a
/// parsed prefix of `i` does not.
pub proof fn lemma_dir_entries_prefix_broken(p: Seq<u8>, off: int, n: nat, i: nat)
    requires
        i < n,
        spec_dir_entries_ok(p, off, i),
        !(0 <= spec_dir_entries_end(p, off, i) <= p.len() && spec_dir_entry_ok(
            p.skip(spec_dir_entries_end(p, off, i)),
        )),
    ensures
        !spec_dir_entries_ok(p, off, n),
    decreases i,
{
    if i == 0 {
        if spec_dir_entries_ok(p, off, n) {
            assert(0 <= off <= p.len() && spec_dir_entry_ok(p.skip(off)));
        }
    } else {
        if spec_dir_entries_ok(p, off, n) {
            lemma_dir_entries_prefix_broken(
                p,
                off + spec_dir_entry_len(p.skip(off)),
                (n - 1) as nat,
                (i - 1) as nat,
            );
        }
    }
}

/// Whether a directory parses from a fresh payload window: a non-negative
/// entry count, padding to offset 128, then the entries.
pub open spec fn spec_directory_ok(p: Seq<u8>) -> bool {
    &&& p.len() >= 4
    &&& le_i32_at(p, 0) >= 0
    &&& spec_dir_entries_ok(p, 128, le_i32_at(p, 0) as nat)
}

/// The directory a fresh payload window denotes.
pub open spec fn spec_directory(p: Seq<u8>) -> DirectoryV {
    DirectoryV { Entries: spec_dir_entries(p, 128, le_i32_at(p, 0) as nat) }
}

impl Directory {
    /// Parse a directory from the start of a fresh payload window.
    #[verifier::loop_isolation(false)]
    pub fn read(b: &mut BlockBuf) -> (r: Result<Directory, Error>)
        requires
            old(b).spec_drained() == 0,
            old(b).spec_endianess() == crate::Endian::Little,
            old(b).origin() + old(b).window().len() <= u64::MAX,
        ensures
            final(b).same_window(old(b)),
            r is Ok <==> spec_directory_ok(old(b).window()),
            r is Ok ==> r->Ok_0@ == spec_directory(old(b).window()),
            r is Err ==> r->Err_0.is_io() || r->Err_0.is_format(),
    {
        let ghost p = old(b).window();
        let entry_count: i32 = b.get_scalar()?;
        if entry_count < 0 {
            return Err(Error::Format("the directory's entry count is negative".to_owned()));
        }
        b.skip_to(128)?;
        let count = entry_count as usize;
        let ghost n = entry_count as nat;
        let window_len = b.window_len();
        let mut entries: Vec<DirectoryEntryDV> = Vec::new();
        let mut i: usize = 0;
        while i < count
            invariant
                i <= count,
                window_len == p.len(),
                b.same_window(old(b)),
                spec_dir_entries_ok(p, 128, i as nat),
                b.spec_drained() == spec_dir_entries_end(p, 128, i as nat),
                128 <= b.spec_drained(),
                i > 0 ==> b.spec_drained() <= p.len(),
                entries@.len() == i,
                Seq::new(entries@.len(), |k: int| entries@[k]@) == spec_dir_entries(
                    p,
                    128,
                    i as nat,
                ),
            decreases count - i,
        {
            if b.drained_count() > window_len {
                // The entries would start past the window's end: nothing
                // can be read there.
                proof {
                    lemma_dir_entries_prefix_broken(p, 128, n, i as nat);
                }
                return Err(Error::Io("window cannot supply the requested bytes".to_owned()));
            }
            let mut sub = b.splice_unlimited();
            let e = match DirectoryEntryDV::read(&mut sub) {
                Ok(e) => e,
                Err(err) => {
                    proof {
                        lemma_dir_entries_prefix_broken(p, 128, n, i as nat);
                    }
                    return Err(err);
                },
            };
            proof {
                lemma_dir_entry_len_ok(p.skip(b.spec_drained()));
                lemma_dir_entries_snoc(p, 128, i as nat);
            }
            b.skip(sub.drained_count());
            entries.push(e);
            proof {
                assert(Seq::new(entries@.len(), |k: int| entries@[k]@) =~= spec_dir_entries(
                    p,
                    128,
                    (i + 1) as nat,
                ));
            }
            i = i + 1;
        }
        let d = Directory { Entries: entries };
        proof {
            assert(d@ =~= spec_directory(p));
        }
        Ok(d)
    }
}

/// The metadata segment's payload: the raw XML source, retained, and a
/// cache that will hold its parsed tree.
pub struct Metadata {
    pub cache: Cached<String, XmlElement>,
}

/// The mathematical value of a metadata payload: the XML source and the
/// tree parsed so far, if any.
#[verifier::ext_equal]
pub struct MetadataV {
    pub source: Seq<char>,
    pub tree: Option<XmlElement>,
}

impl View for Metadata {
    type V = MetadataV;

    open spec fn view(&self) -> MetadataV {
        MetadataV { source: self.cache.source@, tree: self.cache.store }
    }
}

/// Whether a metadata payload parses: a non-negative XML size at the
/// start, and — where it is not zero — that many bytes of valid UTF-8 at
/// offset 256.
pub open spec fn spec_metadata_ok(p: Seq<u8>) -> bool {
    &&& p.len() >= 4
    &&& le_i32_at(p, 0) >= 0
    &&& (le_i32_at(p, 0) == 0 || (256 + le_i32_at(p, 0) <= p.len() && valid_utf8(
        p.subrange(256, 256 + le_i32_at(p, 0)),
    )))
}

/// The metadata a fresh payload window denotes: the decoded XML source,
/// with nothing parsed yet.
pub open spec fn spec_metadata(p: Seq<u8>) -> MetadataV {
    MetadataV {
        source: if le_i32_at(p, 0) == 0 {
            Seq::empty()
        } else {
            decode_utf8(p.subrange(256, 256 + le_i32_at(p, 0)))
        },
        tree: None,
    }
}

/// The tree a metadata segment's XML denotes: the `Metadata` child of the
/// document's root, or nothing where the text does not parse or the child
/// is missing.
pub open spec fn spec_metadata_tree(source: Seq<char>) -> Option<XmlElement> {
    match crate::xml::xml_tree_of(source) {
        Some(root) => crate::xml::spec_find_child(root.children@, "Metadata"@),
        None => None,
    }
}

impl Metadata {
    /// What every metadata value maintains: a tree in the cache is well
    /// formed and is the parse of the retained source.
    pub open spec fn inv(self) -> bool {
        self@.tree matches Some(t) ==> (t.wf() && crate::xml::xml_tree_of(self@.source) == Some(
            t,
        ))
    }

    /// Parse a metadata payload from the start of a fresh window.
    pub fn read(b: &mut BlockBuf) -> (r: Result<Metadata, Error>)
        requires
            old(b).spec_drained() == 0,
            old(b).spec_endianess() == crate::Endian::Little,
        ensures
            final(b).same_window(old(b)),
            r is Ok <==> spec_metadata_ok(old(b).window()),
            r is Ok ==> r->Ok_0@ == spec_metadata(old(b).window()) && r->Ok_0.inv(),
            r is Err ==> ({
                let p = old(b).window();
                let sz = le_i32_at(p, 0);
                &&& (r->Err_0.is_io() <==> p.len() < 4 || (p.len() >= 4 && sz > 0 && 256 + sz
                    > p.len()))
                &&& (r->Err_0.is_format() <==> p.len() >= 4 && (sz < 0 || (sz > 0 && 256 + sz
                    <= p.len() && !valid_utf8(p.subrange(256, 256 + sz)))))
                &&& (r->Err_0.is_io() || r->Err_0.is_format())
            }),
    {
        let ghost p = old(b).window();
        let xml_size: i32 = b.get_scalar()?;
        if xml_size < 0 {
            return Err(Error::Format("the metadata's XML size is negative".to_owned()));
        }
        b.skip_to(256)?;
        let source = b.get_utf8(xml_size as usize)?;
        Ok(Metadata { cache: Cached::new(source) })
    }

    /// The `Metadata` child of the parsed XML tree: the source is parsed
    /// on the first call and retained. Fails with a `Format` error when the
    /// source is not well-formed XML or holds no `Metadata` element.
    pub fn as_tree(&mut self) -> (r: Result<&XmlElement, Error>)
        requires
            old(self).inv(),
        ensures
            final(self)@.source == old(self)@.source,
            final(self).inv(),
            match r {
                Ok(t) => spec_metadata_tree(old(self)@.source) == Some(*t) && t.wf(),
                Err(e) => spec_metadata_tree(old(self)@.source) is None && e.is_format(),
            },
    {
        let r = self.cache.get(crate::xml::parse_xml);
        let root = match r {
            Ok(t) => t,
            Err(e) => {
                return Err(e);
            },
        };
        match root.get_child("Metadata") {
            Some(t) => {
                proof {
                    crate::xml::lemma_find_child_wf(*root, "Metadata"@);
                }
                Ok(t)
            },
            None => Err(Error::Format("the XML stream holds no metadata element".to_owned())),
        }
    }
}

/// One attachment directory entry: a 2-byte ASCII schema type, the
/// attachment segment's file position and part, the content GUID, and the
/// content file type and name as NUL-padded ASCII fields.
pub struct AttachmentEntryA1 {
    pub SchemaType: String,
    pub FilePosition: u64,
    pub FilePart: i32,
    pub ContentGuid: Guid,
    pub ContentFileType: String,
    pub Name: String,
}

/// The mathematical value of an attachment directory entry.
#[verifier::ext_equal]
pub struct AttachmentEntryV {
    pub SchemaType: Seq<char>,
    pub FilePosition: u64,
    pub FilePart: i32,
    pub ContentGuid: Guid,
    pub ContentFileType: Seq<char>,
    pub Name: Seq<char>,
}

impl View for AttachmentEntryA1 {
    type V = AttachmentEntryV;

    open spec fn view(&self) -> AttachmentEntryV {
        AttachmentEntryV {
            SchemaType: self.SchemaType@,
            FilePosition: self.FilePosition,
            FilePart: self.FilePart,
            ContentGuid: self.ContentGuid,
            ContentFileType: self.ContentFileType@,
            Name: self.Name@,
        }
    }
}

/// How many bytes an attachment directory entry occupies.
pub open spec fn spec_att_entry_len() -> int {
    128
}

/// Whether an attachment directory entry parses from a fresh window:
/// 128 bytes, with its three ASCII fields well formed.
pub open spec fn spec_att_entry_ok(p: Seq<u8>) -> bool {
    &&& p.len() >= 128
    &&& ascii_ok_at(p, 0, SCHEMA_TYPE_LEN as int)
    &&& ascii_ok_at(p, 40, 8)
    &&& ascii_ok_at(p, 48, 80)
}

/// The attachment directory entry a fresh window denotes.
pub open spec fn spec_att_entry(p: Seq<u8>) -> AttachmentEntryV {
    AttachmentEntryV {
        SchemaType: ascii_at(p, 0, SCHEMA_TYPE_LEN as int),
        FilePosition: le_u64_at(p, 12),
        FilePart: le_i32_at(p, 20),
        ContentGuid: guid_at(p, 24),
        ContentFileType: ascii_at(p, 40, 8),
        Name: ascii_at(p, 48, 80),
    }
}

impl AttachmentEntryA1 {
    /// Parse an attachment directory entry from the start of a fresh
    /// window.
    pub fn read(b: &mut BlockBuf) -> (r: Result<AttachmentEntryA1, Error>)
        requires
            old(b).spec_drained() == 0,
            old(b).spec_endianess() == crate::Endian::Little,
        ensures
            final(b).same_window(old(b)),
            r is Ok <==> spec_att_entry_ok(old(b).window()),
            r is Ok ==> r->Ok_0@ == spec_att_entry(old(b).window()) && final(b).spec_drained()
                == spec_att_entry_len(),
            r is Err ==> r->Err_0.is_io() || r->Err_0.is_format(),
    {
        let ghost p = old(b).window();
        let schema_type = b.get_ascii(SCHEMA_TYPE_LEN)?;
        b.skip_to(12)?;
        let file_position: u64 = b.get_scalar()?;
        let file_part: i32 = b.get_scalar()?;
        let guid_bytes = b.drain(16)?;
        let content_file_type = b.get_ascii(8)?;
        let name = b.get_ascii(80)?;
        let e = AttachmentEntryA1 {
            SchemaType: schema_type,
            FilePosition: file_position,
            FilePart: file_part,
            ContentGuid: Guid::from_bytes(guid_bytes.as_slice()),
            ContentFileType: content_file_type,
            Name: name,
        };
        proof {
            assert(e@ =~= spec_att_entry(p)) by {
                assert(p.subrange(24, 40) =~= p.subrange(24int, 24int + 16));
            }
        }
        Ok(e)
    }
}

/// The attachment directory's payload: the attachment entries, in file
/// order.
pub struct AttachmentDirectory {
    pub Entries: Vec<AttachmentEntryA1>,
}

/// The mathematical value of an attachment directory.
#[verifier::ext_equal]
pub struct AttachmentDirectoryV {
    pub Entries: Seq<AttachmentEntryV>,
}

impl View for AttachmentDirectory {
    type V = AttachmentDirectoryV;

    open spec fn view(&self) -> AttachmentDirectoryV {
        AttachmentDirectoryV {
            Entries: Seq::new(self.Entries@.len(), |i: int| self.Entries@[i]@),
        }
    }
}

/// Whether `n` attachment entries parse, 128 bytes each, from `off`.
pub open spec fn spec_att_entries_ok(p: Seq<u8>, off: int, n: nat) -> bool
    decreases n,
{
    n == 0 || (0 <= off <= p.len() && spec_att_entry_ok(p.skip(off)) && spec_att_entries_ok(
        p,
        off + 128,
        (n - 1) as nat,
    ))
}

/// The `n` attachment entries from `off`, in order.
pub open spec fn spec_att_entries(p: Seq<u8>, off: int, n: nat) -> Seq<AttachmentEntryV>
    decreases n,
{
    if n == 0 {
        Seq::empty()
    } else {
        seq![spec_att_entry(p.skip(off))] + spec_att_entries(p, off + 128, (n - 1) as nat)
    }
}

/// Extending a parsed run of attachment entries by one parsed entry keeps
/// the run parsed and appends that entry's value.
pub proof fn lemma_att_entries_snoc(p: Seq<u8>, off: int, i: nat)
    requires
        spec_att_entries_ok(p, off, i),
        0 <= off + 128 * i <= p.len(),
        spec_att_entry_ok(p.skip(off + 128 * i)),
    ensures
        spec_att_entries_ok(p, off, (i + 1) as nat),
        spec_att_entries(p, off, (i + 1) as nat) == spec_att_entries(p, off, i).push(
            spec_att_entry(p.skip(off + 128 * i)),
        ),
    decreases i,
{
    if i == 0 {
        assert(spec_att_entries_ok(p, off + 128, 0));
        assert(spec_att_entries(p, off + 128, 0) =~= Seq::<AttachmentEntryV>::empty());
        assert(spec_att_entries(p, off, 1) =~= spec_att_entries(p, off, 0).push(
            spec_att_entry(p.skip(off)),
        ));
    } else {
        assert(spec_att_entry_ok(p.skip(off + 128 + 128 * (i - 1))));
        lemma_att_entries_snoc(p, off + 128, (i - 1) as nat);
        assert(spec_att_entries_ok(p, off, (i + 1) as nat));
        assert(spec_att_entries(p, off, (i + 1) as nat) =~= spec_att_entries(p, off, i).push(
            spec_att_entry(p.skip(off + 128 * i)),
        ));
    }
}

/// A run of `n` attachment entries cannot parse when the one after a
/// parsed prefix of `i` does not.
pub proof fn lemma_att_entries_prefix_broken(p: Seq<u8>, off: int, n: nat, i: nat)
    requires
        i < n,
        !(0 <= off + 128 * i <= p.len() && spec_att_entry_ok(p.skip(off + 128 * i))),
    ensures
        !spec_att_entries_ok(p, off, n),
    decreases i,
{
    if spec_att_entries_ok(p, off, n) {
        if i == 0 {
        } else {
            lemma_att_entries_prefix_broken(p, off + 128, (n - 1) as nat, (i - 1) as nat);
        }
    }
}

/// Whether an attachment directory parses from a fresh payload window: an
/// entry count, padding to offset 256, then the entries.
pub open spec fn spec_att_dir_ok(p: Seq<u8>) -> bool {
    &&& p.len() >= 4
    &&& spec_att_entries_ok(p, 256, le_u32_at(p, 0) as nat)
}

/// The attachment directory a fresh payload window denotes.
pub open spec fn spec_att_dir(p: Seq<u8>) -> AttachmentDirectoryV {
    AttachmentDirectoryV { Entries: spec_att_entries(p, 256, le_u32_at(p, 0) as nat) }
}

impl AttachmentDirectory {
    /// Parse an attachment directory from the start of a fresh payload
    /// window.
    #[verifier::loop_isolation(false)]
    pub fn read(b: &mut BlockBuf) -> (r: Result<AttachmentDirectory, Error>)
        requires
            old(b).spec_drained() == 0,
            old(b).spec_endianess() == crate::Endian::Little,
            old(b).origin() + old(b).window().len() <= u64::MAX,
        ensures
            final(b).same_window(old(b)),
            r is Ok <==> spec_att_dir_ok(old(b).window()),
            r is Ok ==> r->Ok_0@ == spec_att_dir(old(b).window()),
            r is Err ==> r->Err_0.is_io() || r->Err_0.is_format(),
    {
        let ghost p = old(b).window();
        let entry_count: u32 = b.get_scalar()?;
        b.skip_to(256)?;
        let count = entry_count as usize;
        let ghost n = entry_count as nat;
        let window_len = b.window_len();
        let mut entries: Vec<AttachmentEntryA1> = Vec::new();
        let mut i: usize = 0;
        while i < count
            invariant
                i <= count,
                window_len == p.len(),
                b.same_window(old(b)),
                spec_att_entries_ok(p, 256, i as nat),
                b.spec_drained() == 256 + 128 * i,
                i > 0 ==> b.spec_drained() <= p.len(),
                entries@.len() == i,
                Seq::new(entries@.len(), |k: int| entries@[k]@) == spec_att_entries(
                    p,
                    256,
                    i as nat,
                ),
            decreases count - i,
        {
            if b.drained_count() > window_len {
                // The entries would start past the window's end: nothing
                // can be read there.
                proof {
                    lemma_att_entries_prefix_broken(p, 256, n, i as nat);
                }
                return Err(Error::Io("window cannot supply the requested bytes".to_owned()));
            }
            let mut sub = b.splice_unlimited();
            let e = match AttachmentEntryA1::read(&mut sub) {
                Ok(e) => e,
                Err(err) => {
                    proof {
                        lemma_att_entries_prefix_broken(p, 256, n, i as nat);
                    }
                    return Err(err);
                },
            };
            proof {
                lemma_att_entries_snoc(p, 256, i as nat);
            }
            b.skip(sub.drained_count());
            entries.push(e);
            proof {
                assert(Seq::new(entries@.len(), |k: int| entries@[k]@) =~= spec_att_entries(
                    p,
                    256,
                    (i + 1) as nat,
                ));
            }
            i = i + 1;
        }
        let d = AttachmentDirectory { Entries: entries };
        proof {
            assert(d@ =~= spec_att_dir(p));
        }
        Ok(d)
    }
}

/// An attachment: its directory entry, and a lazy slice over its payload
/// bytes.
pub struct Attachment {
    pub Entry: AttachmentEntryA1,
    pub Data: DataFromFile,
}

/// The mathematical value of an attachment: its entry and where its data
/// lies.
#[verifier::ext_equal]
pub struct AttachmentV {
    pub Entry: AttachmentEntryV,
    pub DataPos: int,
    pub DataSize: int,
}

impl View for Attachment {
    type V = AttachmentV;

    open spec fn view(&self) -> AttachmentV {
        AttachmentV {
            Entry: self.Entry@,
            DataPos: self.Data.spec_pos(),
            DataSize: self.Data.spec_size(),
        }
    }
}

/// Whether an attachment parses from a fresh payload window starting at
/// file position `origin`: a data size, its entry at offset 16, and room
/// for the lazy data slice's bookkeeping. The data itself, at offset 256,
/// is only recorded, so the window need not reach it.
pub open spec fn spec_attachment_ok(p: Seq<u8>, origin: int) -> bool {
    &&& p.len() >= 4
    &&& spec_att_entry_ok(suffix(p, 16))
    &&& origin + 256 <= u64::MAX
    &&& 256 + le_u32_at(p, 0) <= usize::MAX
}

/// The attachment a fresh payload window starting at file position
/// `origin` denotes: its entry, and a lazy slice of `data_size` bytes at
/// offset 256.
pub open spec fn spec_attachment(p: Seq<u8>, origin: int) -> AttachmentV {
    AttachmentV {
        Entry: spec_att_entry(suffix(p, 16)),
        DataPos: origin + 256,
        DataSize: le_u32_at(p, 0) as int,
    }
}

impl Attachment {
    /// Parse an attachment from the start of a fresh payload window. The
    /// payload bytes themselves are not read: the returned handle records
    /// their place.
    pub fn read(b: &mut BlockBuf) -> (r: Result<Attachment, Error>)
        requires
            old(b).spec_drained() == 0,
            old(b).spec_endianess() == crate::Endian::Little,
            old(b).origin() + old(b).window().len() <= u64::MAX,
        ensures
            final(b).same_window(old(b)),
            r is Ok <==> spec_attachment_ok(old(b).window(), old(b).origin()),
            r is Ok ==> r->Ok_0@ == spec_attachment(old(b).window(), old(b).origin())
                && r->Ok_0.Data.stored() is None,
            r is Err ==> r->Err_0.is_io() || r->Err_0.is_format(),
    {
        let ghost p = old(b).window();
        let data_size: u32 = b.get_scalar()?;
        b.skip_to(16)?;
        if b.drained_count() > b.window_len() {
            // The entry would start past the window's end: nothing can be
            // read there.
            return Err(Error::Io("window cannot supply the requested bytes".to_owned()));
        }
        let mut sub = b.splice_unlimited();
        let entry = AttachmentEntryA1::read(&mut sub)?;
        b.skip(sub.drained_count());
        b.skip_to(256)?;
        match b.position_checked() {
            Some(_) => {},
            None => {
                return Err(
                    Error::Format(
                        "the attachment's data lies past the largest file position".to_owned(),
                    ),
                );
            },
        }
        let size = data_size as usize;
        if size > usize::MAX - 256 {
            return Err(Error::Format("the attachment's data size is too large".to_owned()));
        }
        let data = b.get_cached_data(size);
        Ok(Attachment { Entry: entry, Data: data })
    }
}

/// A sub-block: its directory entry, its per-tile XML metadata (parsed on
/// demand), a lazy slice over its pixel data, and an optional lazy slice
/// over attached bytes.
pub struct SubBlock {
    pub Entry: DirectoryEntryDV,
    pub Metadata: Cached<String, XmlElement>,
    pub Data: DataFromFile,
    pub Attachment: Option<DataFromFile>,
}

/// The mathematical value of a sub-block: its entry, its metadata XML
/// source, and where its pixel data and optional attachment lie.
#[verifier::ext_equal]
pub struct SubBlockV {
    pub Entry: DirectoryEntryV,
    pub MetadataSource: Seq<char>,
    pub DataPos: int,
    pub DataSize: int,
    pub Attachment: Option<(int, int)>,
}

impl View for SubBlock {
    type V = SubBlockV;

    open spec fn view(&self) -> SubBlockV {
        SubBlockV {
            Entry: self.Entry@,
            MetadataSource: self.Metadata.source@,
            DataPos: self.Data.spec_pos(),
            DataSize: self.Data.spec_size(),
            Attachment: match self.Attachment {
                Some(d) => Some((d.spec_pos(), d.spec_size())),
                None => None,
            },
        }
    }
}

/// Where a sub-block's metadata text starts: after its entry, but at
/// offset 256 at the earliest.
pub open spec fn spec_sub_block_meta_start(p: Seq<u8>) -> int {
    let after_entry = 16 + spec_dir_entry_len(suffix(p, 16));
    if after_entry < 256 {
        256
    } else {
        after_entry
    }
}

/// Whether a sub-block parses from a fresh payload window that starts at
/// file position `origin`: three sizes, the entry at offset 16, metadata
/// text where it starts, and room for the lazy handles' bookkeeping. The
/// pixel data and attached bytes are only recorded, so the window need
/// not reach them.
pub open spec fn spec_sub_block_ok(p: Seq<u8>, origin: int) -> bool {
    &&& p.len() >= 16
    &&& spec_dir_entry_ok(suffix(p, 16))
    &&& (le_u32_at(p, 0) == 0 || (spec_sub_block_meta_start(p) + le_u32_at(p, 0) <= p.len()
        && valid_utf8(
        p.subrange(spec_sub_block_meta_start(p), spec_sub_block_meta_start(p) + le_u32_at(p, 0)),
    )))
    &&& origin + spec_sub_block_meta_start(p) + le_u32_at(p, 0) <= u64::MAX
    &&& spec_sub_block_meta_start(p) + le_u32_at(p, 0) + le_u64_at(p, 8) <= usize::MAX
    &&& (le_u32_at(p, 4) > 0 ==> {
        &&& spec_sub_block_meta_start(p) + le_u32_at(p, 0) + le_u64_at(p, 8) + le_u32_at(p, 4)
            <= usize::MAX
        &&& origin + spec_sub_block_meta_start(p) + le_u32_at(p, 0) + le_u64_at(p, 8)
            <= u64::MAX
    })
}

/// The sub-block a fresh payload window starting at file position
/// `origin` denotes.
pub open spec fn spec_sub_block(p: Seq<u8>, origin: int) -> SubBlockV {
    let mstart = spec_sub_block_meta_start(p);
    let msize = le_u32_at(p, 0) as int;
    let dsize = le_u64_at(p, 8) as int;
    let asize = le_u32_at(p, 4) as int;
    SubBlockV {
        Entry: spec_dir_entry(suffix(p, 16)),
        MetadataSource: if msize == 0 {
            Seq::empty()
        } else {
            decode_utf8(p.subrange(mstart, mstart + msize))
        },
        DataPos: origin + mstart + msize,
        DataSize: dsize,
        Attachment: if asize > 0 {
            Some((origin + mstart + msize + dsize, asize))
        } else {
            None
        },
    }
}

impl SubBlock {
    /// Parse a sub-block from the start of a fresh payload window. The
    /// pixel data and attached bytes are not read: the returned handles
    /// record their places.
    #[verifier::loop_isolation(false)]
    pub fn read(b: &mut BlockBuf) -> (r: Result<SubBlock, Error>)
        requires
            old(b).spec_drained() == 0,
            old(b).spec_endianess() == crate::Endian::Little,
            old(b).origin() + old(b).window().len() <= u64::MAX,
        ensures
            final(b).same_window(old(b)),
            r is Ok <==> spec_sub_block_ok(old(b).window(), old(b).origin()),
            r is Ok ==> r->Ok_0@ == spec_sub_block(old(b).window(), old(b).origin())
                && r->Ok_0.Data.stored() is None && r->Ok_0.Metadata.store is None && (
            r->Ok_0.Attachment matches Some(d) ==> d.stored() is None),
            r is Err ==> r->Err_0.is_io() || r->Err_0.is_format(),
    {
        let ghost p = old(b).window();
        let ghost origin = old(b).origin();
        let metadata_size: u32 = b.get_scalar()?;
        let attachment_size: u32 = b.get_scalar()?;
        let data_size: u64 = b.get_scalar()?;
        let window_len = b.window_len();
        let mut sub = b.splice_unlimited();
        proof {
            assert(sub.window() =~= suffix(p, 16));
        }
        let entry = DirectoryEntryDV::read(&mut sub)?;
        b.skip(sub.drained_count());
        if b.drained_count() < 256 {
            b.skip_to(256)?;
        }
        let source = b.get_utf8(metadata_size as usize)?;
        proof {
            assert(b.spec_drained() == spec_sub_block_meta_start(p) + le_u32_at(p, 0));
            if metadata_size == 0 {
                assert(decode_utf8(Seq::<u8>::empty()) =~= Seq::<char>::empty());
            }
        }
        match b.position_checked() {
            Some(_) => {},
            None => {
                return Err(
                    Error::Format(
                        "the sub-block's data lies past the largest file position".to_owned(),
                    ),
                );
            },
        }
        if data_size > usize::MAX as u64 {
            return Err(Error::Format("the sub-block's data size is too large".to_owned()));
        }
        let dsize = data_size as usize;
        if dsize > usize::MAX - b.drained_count() {
            return Err(Error::Format("the sub-block's data size is too large".to_owned()));
        }
        let data = b.get_cached_data(dsize);
        let attachment: Option<DataFromFile> = if attachment_size > 0 {
            let asize = attachment_size as usize;
            if asize > usize::MAX - b.drained_count() {
                return Err(
                    Error::Format("the sub-block's attachment size is too large".to_owned()),
                );
            }
            match b.position_checked() {
                Some(_) => {},
                None => {
                    return Err(
                        Error::Format(
                            "the sub-block's data lies past the largest file position".to_owned(),
                        ),
                    );
                },
            }
            Some(b.get_cached_data(asize))
        } else {
            None
        };
        Ok(
            SubBlock {
                Entry: entry,
                Metadata: Cached::new(source),
                Data: data,
                Attachment: attachment,
            },
        )
    }
}



/// The typed payload of a segment, one variant per known tag, and
/// `DELETED` for any unknown tag.
pub enum SegmentBlock {
    FileHeader(FileHeader),
    Directory(Directory),
    ImageSubBlock(SubBlock),
    Metadata(Metadata),
    Attachment(Attachment),
    AttachmentDirectory(AttachmentDirectory),
    DELETED,
}

/// The mathematical value of a segment's payload.
pub enum SegmentBlockV {
    FileHeader(FileHeaderV),
    Directory(DirectoryV),
    ImageSubBlock(SubBlockV),
    Metadata(MetadataV),
    Attachment(AttachmentV),
    AttachmentDirectory(AttachmentDirectoryV),
    DELETED,
}

impl View for SegmentBlock {
    type V = SegmentBlockV;

    open spec fn view(&self) -> SegmentBlockV {
        match self {
            SegmentBlock::FileHeader(x) => SegmentBlockV::FileHeader(x@),
            SegmentBlock::Directory(x) => SegmentBlockV::Directory(x@),
            SegmentBlock::ImageSubBlock(x) => SegmentBlockV::ImageSubBlock(x@),
            SegmentBlock::Metadata(x) => SegmentBlockV::Metadata(x@),
            SegmentBlock::Attachment(x) => SegmentBlockV::Attachment(x@),
            SegmentBlock::AttachmentDirectory(x) => SegmentBlockV::AttachmentDirectory(x@),
            SegmentBlock::DELETED => SegmentBlockV::DELETED,
        }
    }
}

/// A segment: its recorded sizes, its file position, and its typed
/// payload.
pub struct Segment {
    pub allocated_size: u64,
    pub used_size: u64,
    pub pos: u64,
    pub block: SegmentBlock,
}

/// The mathematical value of a segment.
#[verifier::ext_equal]
pub struct SegmentV {
    pub allocated_size: u64,
    pub used_size: u64,
    pub pos: u64,
    pub block: SegmentBlockV,
}

impl View for Segment {
    type V = SegmentV;

    open spec fn view(&self) -> SegmentV {
        SegmentV {
            allocated_size: self.allocated_size,
            used_size: self.used_size,
            pos: self.pos,
            block: self.block@,
        }
    }
}

/// The 16-byte tag at a segment's start, as trimmed characters.
pub open spec fn spec_segment_tag(f: Seq<u8>, pos: int) -> Seq<char> {
    ascii_at(f, pos, 16)
}

/// The allocated payload size a segment header records.
pub open spec fn spec_segment_alloc(f: Seq<u8>, pos: int) -> u64 {
    le_u64_at(f, pos + 16)
}

/// The used size a segment header records, defaulted to the allocated
/// size when it is zero on disk.
pub open spec fn spec_segment_used(f: Seq<u8>, pos: int) -> u64 {
    if le_u64_at(f, pos + 24) == 0 {
        spec_segment_alloc(f, pos)
    } else {
        le_u64_at(f, pos + 24)
    }
}

/// A segment's payload window: exactly the `allocated_size` bytes after
/// its 32-byte header. A structure that would reach past them does not
/// parse: the window ends there.
pub open spec fn spec_payload(f: Seq<u8>, pos: int) -> Seq<u8> {
    f.subrange(pos + 32, pos + 32 + spec_segment_alloc(f, pos))
}

/// Whether the segment's 32-byte header parses and its allocated span
/// lies inside the file.
pub open spec fn spec_segment_header_ok(f: Seq<u8>, pos: int) -> bool {
    &&& 0 <= pos
    &&& pos + 32 <= f.len()
    &&& ascii_ok_at(f, pos, 16)
    &&& pos + 32 + spec_segment_alloc(f, pos) <= f.len()
}

/// Why reading the segment at `pos` reports a short read: its header or
/// its allocated span reaches past the file's end.
pub open spec fn spec_segment_err_io(f: Seq<u8>, pos: int) -> bool {
    ||| pos + 16 > f.len()
    ||| (pos + 16 <= f.len() && ascii_ok_at(f, pos, 16) && (pos + 32 > f.len() || (pos + 32
        <= f.len() && pos + 32 + spec_segment_alloc(f, pos) > f.len())))
}

/// Why reading the segment at `pos` reports a malformed container: its
/// tag is not ASCII, or its payload does not parse as the tag demands —
/// among else, a payload structure that overruns the allocated size.
pub open spec fn spec_segment_err_format(f: Seq<u8>, pos: int) -> bool {
    ||| (pos + 16 <= f.len() && !ascii_ok_at(f, pos, 16))
    ||| (spec_segment_header_ok(f, pos) && !spec_segment_ok(f, pos))
}

/// Whether the segment at `pos` parses: its 32-byte header must lie in the
/// file with an ASCII tag, its allocated span must lie in the file, and
/// its payload must parse as the tag demands. An unknown tag asks nothing
/// of the payload.
pub open spec fn spec_segment_ok(f: Seq<u8>, pos: int) -> bool {
    &&& spec_segment_header_ok(f, pos)
    &&& {
        let tag = spec_segment_tag(f, pos);
        let p = spec_payload(f, pos);
        if tag == "ZISRAWFILE"@ {
            spec_file_header_ok(p)
        } else if tag == "ZISRAWATTDIR"@ {
            spec_att_dir_ok(p)
        } else if tag == "ZISRAWMETADATA"@ {
            spec_metadata_ok(p)
        } else if tag == "ZISRAWSUBBLOCK"@ {
            spec_sub_block_ok(p, pos + 32)
        } else if tag == "ZISRAWDIRECTORY"@ {
            spec_directory_ok(p)
        } else if tag == "ZISRAWATTACH"@ {
            spec_attachment_ok(p, pos + 32)
        } else {
            true
        }
    }
}

/// The segment at `pos`: its sizes, its position, and its payload typed by
/// its tag.
pub open spec fn spec_segment(f: Seq<u8>, pos: int) -> SegmentV {
    let tag = spec_segment_tag(f, pos);
    let p = spec_payload(f, pos);
    SegmentV {
        allocated_size: spec_segment_alloc(f, pos),
        used_size: spec_segment_used(f, pos),
        pos: pos as u64,
        block: if tag == "ZISRAWFILE"@ {
            SegmentBlockV::FileHeader(spec_file_header(p))
        } else if tag == "ZISRAWATTDIR"@ {
            SegmentBlockV::AttachmentDirectory(spec_att_dir(p))
        } else if tag == "ZISRAWMETADATA"@ {
            SegmentBlockV::Metadata(spec_metadata(p))
        } else if tag == "ZISRAWSUBBLOCK"@ {
            SegmentBlockV::ImageSubBlock(spec_sub_block(p, pos + 32))
        } else if tag == "ZISRAWDIRECTORY"@ {
            SegmentBlockV::Directory(spec_directory(p))
        } else if tag == "ZISRAWATTACH"@ {
            SegmentBlockV::Attachment(spec_attachment(p, pos + 32))
        } else {
            SegmentBlockV::DELETED
        },
    }
}

/// Every lazy handle and cache inside a freshly parsed segment is empty,
/// and its metadata keeps its invariant.
pub open spec fn spec_segment_fresh(s: Segment) -> bool {
    match s.block {
        SegmentBlock::Metadata(m) => m.cache.store is None && m.inv(),
        SegmentBlock::ImageSubBlock(sb) => {
            &&& sb.Data.stored() is None
            &&& sb.Metadata.store is None
            &&& (sb.Attachment matches Some(d) ==> d.stored() is None)
        },
        SegmentBlock::Attachment(a) => a.Data.stored() is None,
        _ => true,
    }
}

/// A payload error with short reads retagged: once the header promised
/// the allocated span and the span is present, a payload read that runs
/// out of bytes has overrun the allocated size — a malformed container,
/// not a short file.
fn payload_error(e: Error) -> (r: Error)
    ensures
        r.is_format() <==> e.is_format() || e.is_io(),
        r.is_io() == false,
        r.is_parse() == e.is_parse(),
        r.is_backwards_skip() == e.is_backwards_skip(),
{
    match e {
        Error::Io(m) => Error::Format(m),
        other => other,
    }
}

impl Segment {
    /// Read the segment that starts at `pos`: its 32-byte header, then its
    /// payload typed by the header's tag, read from a window of exactly
    /// the allocated size. A tag that names no known payload yields the
    /// `DELETED` variant and reads no payload. No bulk bytes are read:
    /// sub-block data and attachment data come back as lazy handles.
    pub fn new(file: &Vec<u8>, pos: u64) -> (r: Result<Segment, Error>)
        ensures
            r is Ok <==> spec_segment_ok(file@, pos as int),
            r is Ok ==> r->Ok_0@ == spec_segment(file@, pos as int) && spec_segment_fresh(
                r->Ok_0,
            ),
            r is Err ==> {
                &&& !r->Err_0.is_backwards_skip()
                &&& !r->Err_0.is_parse()
                &&& (r->Err_0.is_io() <==> spec_segment_err_io(file@, pos as int))
                &&& (r->Err_0.is_format() <==> spec_segment_err_format(file@, pos as int))
            },
    {
        let ghost f = file@;
        let file_len = file.len();
        let mut buffer = BlockBuf::new(file, pos, crate::Endian::Little);
        let ghost w = buffer.window();
        proof {
            if pos + 16 <= f.len() {
                assert(w.subrange(0int, 16int) =~= f.subrange(pos as int, pos + 16));
            }
        }
        let id = buffer.get_ascii(16)?;
        let allocated_size: u64 = buffer.get_scalar()?;
        let used_size: u64 = buffer.get_scalar()?;
        proof {
            assert(w.subrange(16int, 16int + 8) =~= f.subrange(pos + 16, pos + 16 + 8));
            assert(w.subrange(24int, 24int + 8) =~= f.subrange(pos + 24, pos + 24 + 8));
        }
        if allocated_size > (usize::MAX as u64) - 32 {
            return Err(Error::Io("the file ends inside the segment".to_owned()));
        }
        buffer.resize(32 + allocated_size as usize)?;
        let mut sub = match buffer.splice(allocated_size as usize) {
            Ok(sub) => sub,
            Err(_) => {
                return vstd::pervasive::unreached();
            },
        };
        proof {
            assert(sub.window() =~= spec_payload(f, pos as int));
        }
        let block = if str_eq(id.as_str(), "ZISRAWFILE") {
            match FileHeader::read(&mut sub) {
                Ok(x) => SegmentBlock::FileHeader(x),
                Err(e) => {
                    return Err(payload_error(e));
                },
            }
        } else if str_eq(id.as_str(), "ZISRAWATTDIR") {
            match AttachmentDirectory::read(&mut sub) {
                Ok(x) => SegmentBlock::AttachmentDirectory(x),
                Err(e) => {
                    return Err(payload_error(e));
                },
            }
        } else if str_eq(id.as_str(), "ZISRAWMETADATA") {
            match Metadata::read(&mut sub) {
                Ok(x) => SegmentBlock::Metadata(x),
                Err(e) => {
                    return Err(payload_error(e));
                },
            }
        } else if str_eq(id.as_str(), "ZISRAWSUBBLOCK") {
            match SubBlock::read(&mut sub) {
                Ok(x) => SegmentBlock::ImageSubBlock(x),
                Err(e) => {
                    return Err(payload_error(e));
                },
            }
        } else if str_eq(id.as_str(), "ZISRAWDIRECTORY") {
            match Directory::read(&mut sub) {
                Ok(x) => SegmentBlock::Directory(x),
                Err(e) => {
                    return Err(payload_error(e));
                },
            }
        } else if str_eq(id.as_str(), "ZISRAWATTACH") {
            match Attachment::read(&mut sub) {
                Ok(x) => SegmentBlock::Attachment(x),
                Err(e) => {
                    return Err(payload_error(e));
                },
            }
        } else {
            SegmentBlock::DELETED
        };
        let s = Segment {
            pos,
            allocated_size,
            used_size: if used_size == 0 {
                allocated_size
            } else {
                used_size
            },
            block,
        };
        proof {
            assert(s@ == spec_segment(f, pos as int));
        }
        Ok(s)
    }
}

/// Two windows that agree on a 20-byte range hold the same dimension
/// entry there.
proof fn lemma_dim_entry_agree(w1: Seq<u8>, w2: Seq<u8>, off: int)
    requires
        0 <= off,
        off + 20 <= w1.len(),
        off + 20 <= w2.len(),
        w1.subrange(off, off + 20) == w2.subrange(off, off + 20),
    ensures
        spec_dim_entry_ok(w1, off) == spec_dim_entry_ok(w2, off),
        spec_dim_entry(w1, off) == spec_dim_entry(w2, off),
{
    assert forall|a: int, b: int| off <= a <= b <= off + 20 implies w1.subrange(a, b)
        == w2.subrange(a, b) by {
        assert(w1.subrange(a, b) =~= w1.subrange(off, off + 20).subrange(a - off, b - off));
        assert(w2.subrange(a, b) =~= w2.subrange(off, off + 20).subrange(a - off, b - off));
    }
}

/// Two windows that agree below `end` hold the same run of dimension
/// entries wherever the run lies below `end`.
proof fn lemma_dims_agree(w1: Seq<u8>, w2: Seq<u8>, off: int, n: nat, end: int)
    requires
        0 <= off,
        off + 20 * n <= end,
        end <= w1.len(),
        end <= w2.len(),
        w1.subrange(0, end) == w2.subrange(0, end),
    ensures
        spec_dims_ok(w1, off, n) == spec_dims_ok(w2, off, n),
        spec_dims(w1, off, n) == spec_dims(w2, off, n),
    decreases n,
{
    if n > 0 {
        assert(w1.subrange(off, off + 20) =~= w1.subrange(0, end).subrange(off, off + 20));
        assert(w2.subrange(off, off + 20) =~= w2.subrange(0, end).subrange(off, off + 20));
        lemma_dim_entry_agree(w1, w2, off);
        lemma_dims_agree(w1, w2, off + 20, (n - 1) as nat, end);
        assert(spec_dims(w1, off, n) =~= spec_dims(w2, off, n));
    }
}

/// Two payload windows that agree up to an entry's extent hold the same
/// directory entry.
pub proof fn lemma_dir_entry_agree(p1: Seq<u8>, p2: Seq<u8>, end: int)
    requires
        spec_dir_entry_ok(p1),
        spec_dir_entry_len(p1) <= end,
        end <= p1.len(),
        end <= p2.len(),
        p1.subrange(0, end) == p2.subrange(0, end),
    ensures
        spec_dir_entry_ok(p2),
        spec_dir_entry(p2) == spec_dir_entry(p1),
        spec_dir_entry_len(p2) == spec_dir_entry_len(p1),
{
    lemma_dir_entry_len_ok(p1);
    assert forall|a: int, b: int| 0 <= a <= b <= end implies p1.subrange(a, b) == p2.subrange(
        a,
        b,
    ) by {
        assert(p1.subrange(a, b) =~= p1.subrange(0, end).subrange(a, b));
        assert(p2.subrange(a, b) =~= p2.subrange(0, end).subrange(a, b));
    }
    let n = le_u32_at(p1, 28) as nat;
    assert(le_u32_at(p2, 28) == le_u32_at(p1, 28));
    assert(p1[22] == p1.subrange(0, end)[22] && p2[22] == p2.subrange(0, end)[22]);
    lemma_dims_facts(p1, 32, n);
    lemma_dims_agree(p1, p2, 32, n, end);
    assert(spec_dir_entry(p2) =~= spec_dir_entry(p1));
}

/// Constructing a sub-block performs no read of its pixel data: the parse
/// depends only on the payload's bytes before the data region. A window
/// that agrees with a parsed one up to the end of the metadata text
/// parses to the same sub-block, however its data region reads.
pub proof fn lemma_sub_block_lazy(p1: Seq<u8>, p2: Seq<u8>, origin: int)
    requires
        spec_sub_block_ok(p1, origin),
        spec_sub_block_meta_start(p1) + le_u32_at(p1, 0) <= p1.len(),
        p2.len() >= spec_sub_block_meta_start(p1) + le_u32_at(p1, 0),
        p2.subrange(0, spec_sub_block_meta_start(p1) + le_u32_at(p1, 0)) == p1.subrange(
            0,
            spec_sub_block_meta_start(p1) + le_u32_at(p1, 0),
        ),
    ensures
        spec_sub_block_ok(p2, origin),
        spec_sub_block(p2, origin) == spec_sub_block(p1, origin),
{
    let end = spec_sub_block_meta_start(p1) + le_u32_at(p1, 0);
    assert forall|a: int, b: int| 0 <= a <= b <= end implies p1.subrange(a, b) == p2.subrange(
        a,
        b,
    ) by {
        assert(p1.subrange(a, b) =~= p1.subrange(0, end).subrange(a, b));
        assert(p2.subrange(a, b) =~= p2.subrange(0, end).subrange(a, b));
    }
    assert(le_u32_at(p2, 0) == le_u32_at(p1, 0));
    assert(le_u32_at(p2, 4) == le_u32_at(p1, 4));
    assert(le_u64_at(p2, 8) == le_u64_at(p1, 8));
    assert(suffix(p1, 16) == p1.skip(16));
    assert(suffix(p2, 16) == p2.skip(16));
    let elen = spec_dir_entry_len(p1.skip(16));
    lemma_dir_entry_len_ok(p1.skip(16));
    assert(p1.skip(16).subrange(0, end - 16) =~= p1.subrange(16, end));
    assert(p2.skip(16).subrange(0, end - 16) =~= p2.subrange(16, end));
    lemma_dir_entry_agree(p1.skip(16), p2.skip(16), end - 16);
    assert(spec_sub_block_meta_start(p2) == spec_sub_block_meta_start(p1));
    if le_u32_at(p1, 0) > 0 {
        assert(p2.subrange(spec_sub_block_meta_start(p2), end) == p1.subrange(
            spec_sub_block_meta_start(p1),
            end,
        ));
    }
}

} // verus!
