//! The windowed, positioned, endian-aware byte buffer the segment parsers
//! read from, and the lazy file slice it can hand out.
//!
//! A `BlockBuf` is a window into a file's bytes: an origin (an absolute file
//! position), the bytes from that origin to the window's end, and a count of
//! bytes logically consumed (`drained`). Reads move forward only; a request
//! to skip backwards is an error and changes nothing. A `DataFromFile`
//! records a position and a length and materialises the bytes only when
//! asked.

use crate::basic::Cached;
use crate::bytes::spec_scalar;
use crate::bytes::ByteSwapper;
use crate::text::all_ascii;
use crate::text::ascii_field;
use crate::text::spec_ascii_chars;
use crate::text::spec_nul_trim;
use crate::text::utf8_from_bytes;
use crate::Endian;
use crate::Error;
use vstd::prelude::*;
use vstd::utf8::decode_utf8;
use vstd::utf8::valid_utf8;

verus! {

/// A forward-only window over a file's bytes.
pub struct BlockBuf {
    bytes: Vec<u8>,
    start_in_file: u64,
    drained: usize,
    endianess: Endian,
}

impl BlockBuf {
    /// The bytes of the window, counted from its origin.
    pub closed spec fn window(&self) -> Seq<u8> {
        self.bytes@
    }

    /// The absolute file position of the window's origin.
    pub closed spec fn origin(&self) -> int {
        self.start_in_file as int
    }

    /// How many bytes have been logically consumed since the origin.
    pub closed spec fn spec_drained(&self) -> int {
        self.drained as int
    }

    /// The byte order scalars are decoded with.
    pub closed spec fn spec_endianess(&self) -> Endian {
        self.endianess
    }

    /// The current absolute file position: origin plus drained bytes.
    pub open spec fn pos(&self) -> int {
        self.origin() + self.spec_drained()
    }

    /// The window's bytes that have not been consumed yet.
    pub open spec fn remaining(&self) -> Seq<u8> {
        if self.spec_drained() <= self.window().len() {
            self.window().skip(self.spec_drained())
        } else {
            Seq::empty()
        }
    }

    /// True when the other buffer differs at most in its drained count.
    pub open spec fn same_window(&self, other: &BlockBuf) -> bool {
        &&& self.window() == other.window()
        &&& self.origin() == other.origin()
        &&& self.spec_endianess() == other.spec_endianess()
    }

    /// A window over the file's bytes from `pos` to the file's end. No
    /// check happens at construction: a position past the end gives an
    /// empty window, and the first read there fails.
    pub fn new(file: &Vec<u8>, pos: u64, endianess: Endian) -> (r: BlockBuf)
        ensures
            r.window() == (if pos <= file@.len() {
                file@.skip(pos as int)
            } else {
                Seq::<u8>::empty()
            }),
            r.origin() == pos,
            r.spec_drained() == 0,
            r.spec_endianess() == endianess,
    {
        let start: usize = if pos <= file.len() as u64 {
            pos as usize
        } else {
            file.len()
        };
        let mut bytes: Vec<u8> = Vec::new();
        let mut i: usize = start;
        while i < file.len()
            invariant
                start <= i <= file@.len(),
                bytes@ == file@.subrange(start as int, i as int),
            decreases file@.len() - i,
        {
            bytes.push(file[i]);
            proof {
                assert(bytes@ =~= file@.subrange(start as int, i + 1));
            }
            i = i + 1;
        }
        proof {
            if pos <= file@.len() {
                assert(bytes@ =~= file@.skip(pos as int));
            } else {
                assert(bytes@ =~= Seq::<u8>::empty());
            }
        }
        BlockBuf { bytes, start_in_file: pos, drained: 0, endianess }
    }

    /// How many bytes have been consumed, executably.
    pub fn drained_count(&self) -> (r: usize)
        ensures
            r == self.spec_drained(),
    {
        self.drained
    }

    /// How many bytes the window holds, executably.
    pub fn window_len(&self) -> (r: usize)
        ensures
            r == self.window().len(),
    {
        self.bytes.len()
    }

    /// The current absolute file position, where it fits a file position.
    pub fn position_checked(&self) -> (r: Option<u64>)
        ensures
            match r {
                Some(v) => v == self.pos() && self.pos() <= u64::MAX,
                None => self.pos() > u64::MAX,
            },
    {
        self.start_in_file.checked_add(self.drained as u64)
    }

    /// Consume `size` bytes and yield them. Draining nothing always
    /// succeeds; otherwise the window must supply the bytes, and an `Io`
    /// error changes nothing.
    pub fn drain(&mut self, size: usize) -> (r: Result<Vec<u8>, Error>)
        ensures
            final(self).same_window(old(self)),
            match r {
                Ok(v) => {
                    &&& size == 0 || old(self).spec_drained() + size <= old(self).window().len()
                    &&& final(self).spec_drained() == old(self).spec_drained() + size
                    &&& v@.len() == size
                    &&& (old(self).spec_drained() + size <= old(self).window().len() ==> v@
                        == old(self).window().subrange(
                        old(self).spec_drained(),
                        old(self).spec_drained() + size,
                    ))
                },
                Err(e) => {
                    &&& e.is_io()
                    &&& size > 0
                    &&& old(self).spec_drained() + size > old(self).window().len()
                    &&& *final(self) == *old(self)
                },
            },
    {
        if size == 0 {
            return Ok(Vec::new());
        }
        if size > self.bytes.len() || self.drained > self.bytes.len() - size {
            return Err(Error::Io("window cannot supply the requested bytes".to_owned()));
        }
        let mut v: Vec<u8> = Vec::new();
        let mut i: usize = self.drained;
        let end = self.drained + size;
        while i < end
            invariant
                self.drained <= i <= end,
                end == self.drained + size <= self.bytes@.len(),
                v@ == self.bytes@.subrange(self.drained as int, i as int),
            decreases end - i,
        {
            v.push(self.bytes[i]);
            proof {
                assert(v@ =~= self.bytes@.subrange(self.drained as int, i + 1));
            }
            i = i + 1;
        }
        self.drained = end;
        Ok(v)
    }

    /// Advance so that exactly `newpos` bytes count as consumed. Only a
    /// backward target is an error, and it changes nothing; a forward
    /// target past the window's end is taken, and the reads there fail.
    pub fn skip_to(&mut self, newpos: u64) -> (r: Result<(), Error>)
        requires
            newpos <= usize::MAX,
        ensures
            final(self).same_window(old(self)),
            match r {
                Ok(_) => {
                    &&& old(self).spec_drained() <= newpos
                    &&& final(self).spec_drained() == newpos
                },
                Err(e) => {
                    &&& *final(self) == *old(self)
                    &&& e.is_backwards_skip()
                    &&& newpos < old(self).spec_drained()
                },
            },
    {
        if newpos < self.drained as u64 {
            return Err(Error::BackwardsSkip);
        }
        self.drained = newpos as usize;
        Ok(())
    }

    /// Advance over `len` bytes without reading them.
    pub(crate) fn skip(&mut self, len: usize)
        requires
            old(self).spec_drained() + len <= usize::MAX,
        ensures
            final(self).same_window(old(self)),
            final(self).spec_drained() == old(self).spec_drained() + len,
    {
        self.drained = self.drained + len;
    }

    /// Check that the window holds at least `newsize` bytes from its origin,
    /// as a segment header's recorded size demands; the window itself is not
    /// changed. Returns the window's extent. Fails with an `Io` error when
    /// the file ends before `newsize` bytes.
    pub fn resize(&mut self, newsize: usize) -> (r: Result<usize, Error>)
        ensures
            *final(self) == *old(self),
            match r {
                Ok(n) => newsize <= old(self).window().len() && n == old(self).window().len(),
                Err(e) => e.is_io() && newsize > old(self).window().len(),
            },
    {
        if newsize > self.bytes.len() {
            return Err(Error::Io("the file ends inside the segment".to_owned()));
        }
        Ok(self.bytes.len())
    }

    /// A scalar decoded from the next bytes in the window's byte order.
    pub fn get_scalar<T: ByteSwapper>(&mut self) -> (r: Result<T, Error>)
        ensures
            final(self).same_window(old(self)),
            match r {
                Ok(v) => {
                    &&& old(self).spec_drained() + T::spec_width() <= old(self).window().len()
                    &&& final(self).spec_drained() == old(self).spec_drained() + T::spec_width()
                    &&& v == spec_scalar::<T>(
                        old(self).window().subrange(
                            old(self).spec_drained(),
                            old(self).spec_drained() + T::spec_width(),
                        ),
                        old(self).spec_endianess(),
                    )
                },
                Err(e) => {
                    &&& e.is_io()
                    &&& old(self).spec_drained() + T::spec_width() > old(self).window().len()
                    &&& *final(self) == *old(self)
                },
            },
    {
        let ghost lo = self.spec_drained();
        let w = T::width();
        let b = self.drain(w)?;
        let v = T::from_le_bytes(b.as_slice());
        match self.endianess {
            Endian::Little => Ok(v),
            Endian::Big => {
                proof {
                    crate::bytes::lemma_swapped_is_reversed::<T>(
                        old(self).window().subrange(lo, lo + T::spec_width()),
                    );
                }
                Ok(v.swap_bytes())
            },
        }
    }

    /// A vector of `len` scalars, each decoded as `get_scalar` does. The
    /// whole vector is read, or nothing is consumed.
    pub fn get_vec<T: ByteSwapper>(&mut self, len: usize) -> (r: Result<Vec<T>, Error>)
        ensures
            final(self).same_window(old(self)),
            match r {
                Ok(v) => {
                    &&& len == 0 || old(self).spec_drained() + len * T::spec_width() <= old(self).window().len()
                    &&& final(self).spec_drained() == old(self).spec_drained() + len
                        * T::spec_width()
                    &&& v@.len() == len
                    &&& forall|i: int|
                        0 <= i < len ==> v@[i] == spec_scalar::<T>(
                            old(self).window().subrange(
                                old(self).spec_drained() + i * T::spec_width(),
                                old(self).spec_drained() + (i + 1) * T::spec_width(),
                            ),
                            old(self).spec_endianess(),
                        )
                },
                Err(e) => {
                    &&& e.is_io()
                    &&& len > 0
                    &&& old(self).spec_drained() + len * T::spec_width() > old(self).window().len()
                    &&& *final(self) == *old(self)
                },
            },
    {
        let w = T::width();
        if len == 0 {
            return Ok(Vec::new());
        }
        let window_len = self.bytes.len();
        let total = match len.checked_mul(w) {
            Some(t) => t,
            None => {
                proof {
                    assert(window_len == old(self).window().len());
                    assert(len * w > usize::MAX);
                }
                return Err(Error::Io("window cannot supply the requested bytes".to_owned()));
            },
        };
        if total > self.bytes.len() || self.drained > self.bytes.len() - total {
            return Err(Error::Io("window cannot supply the requested bytes".to_owned()));
        }
        let ghost start = self.spec_drained();
        let mut v: Vec<T> = Vec::new();
        let mut i: usize = 0;
        while i < len
            invariant
                i <= len,
                w == T::spec_width(),
                total == len * w,
                start + total <= self.window().len(),
                self.same_window(old(self)),
                self.spec_endianess() == old(self).spec_endianess(),
                self.spec_drained() == start + i * w,
                v@.len() == i,
                forall|k: int|
                    0 <= k < i ==> v@[k] == spec_scalar::<T>(
                        old(self).window().subrange(start + k * w, start + (k + 1) * w),
                        old(self).spec_endianess(),
                    ),
            decreases len - i,
        {
            proof {
                assert((i + 1) * w == i * w + w) by (nonlinear_arith);
                assert(i * w + w <= len * w) by (nonlinear_arith)
                    requires
                        0 <= w,
                        i + 1 <= len,
                ;
            }
            let s = self.get_scalar::<T>();
            match s {
                Ok(x) => {
                    v.push(x);
                },
                Err(_) => {
                    return vstd::pervasive::unreached();
                },
            }
            i = i + 1;
        }
        Ok(v)
    }

    /// The next `len` bytes decoded as UTF-8. The bytes are consumed even
    /// when they are not valid UTF-8; a short window consumes nothing, and
    /// zero bytes decode to the empty string wherever the window stands.
    pub fn get_utf8(&mut self, len: usize) -> (r: Result<String, Error>)
        ensures
            final(self).same_window(old(self)),
            ({
                let taken = old(self).window().subrange(
                    old(self).spec_drained(),
                    old(self).spec_drained() + len,
                );
                match r {
                    Ok(s) => {
                        &&& len == 0 || old(self).spec_drained() + len <= old(self).window().len()
                        &&& final(self).spec_drained() == old(self).spec_drained() + len
                        &&& (old(self).spec_drained() + len <= old(self).window().len()
                            ==> valid_utf8(taken) && s@ == decode_utf8(taken))
                        &&& (len == 0 ==> s@ == Seq::<char>::empty())
                    },
                    Err(e) => {
                        &&& !e.is_backwards_skip()
                        &&& e.is_io() ==> len > 0 && old(self).spec_drained() + len > old(self).window().len() && *final(self) == *old(self)
                        &&& e.is_format() ==> old(self).spec_drained() + len <= old(self).window().len() && !valid_utf8(taken) && final(self).spec_drained()
                            == old(self).spec_drained() + len
                        &&& (e.is_io() || e.is_format())
                    },
                }
            }),
    {
        let b = self.drain(len)?;
        match utf8_from_bytes(b) {
            Some(s) => Ok(s),
            None => Err(Error::Format("the bytes are not valid UTF-8".to_owned())),
        }
    }

    /// The next `len` bytes decoded as a NUL-padded ASCII field: the bytes
    /// before the first NUL, as a string. The bytes are consumed even when
    /// the field is not ASCII; a short window consumes nothing, and zero
    /// bytes decode to the empty string wherever the window stands.
    pub fn get_ascii(&mut self, len: usize) -> (r: Result<String, Error>)
        ensures
            final(self).same_window(old(self)),
            ({
                let taken = old(self).window().subrange(
                    old(self).spec_drained(),
                    old(self).spec_drained() + len,
                );
                match r {
                    Ok(s) => {
                        &&& len == 0 || old(self).spec_drained() + len <= old(self).window().len()
                        &&& final(self).spec_drained() == old(self).spec_drained() + len
                        &&& (old(self).spec_drained() + len <= old(self).window().len()
                            ==> all_ascii(spec_nul_trim(taken)) && s@ == spec_ascii_chars(
                            spec_nul_trim(taken),
                        ))
                        &&& (len == 0 ==> s@ == Seq::<char>::empty())
                    },
                    Err(e) => {
                        &&& !e.is_backwards_skip()
                        &&& e.is_io() ==> len > 0 && old(self).spec_drained() + len > old(self).window().len() && *final(self) == *old(self)
                        &&& e.is_format() ==> old(self).spec_drained() + len <= old(self).window().len() && !all_ascii(spec_nul_trim(taken)) && final(self).spec_drained() == old(self).spec_drained() + len
                        &&& (e.is_io() || e.is_format())
                    },
                }
            }),
    {
        let b = self.drain(len)?;
        ascii_field(&b)
    }

    /// A lazy slice of `size` bytes at the current position. Nothing is
    /// read: the slice records the position and length, and the window
    /// advances over the bytes.
    pub fn get_cached_data(&mut self, size: usize) -> (r: DataFromFile)
        requires
            old(self).spec_drained() + size <= usize::MAX,
            old(self).pos() <= u64::MAX,
        ensures
            final(self).same_window(old(self)),
            final(self).spec_drained() == old(self).spec_drained() + size,
            r.spec_pos() == old(self).pos(),
            r.spec_size() == size,
            r.stored() is None,
    {
        let pos = self.start_in_file + self.drained as u64;
        let ret = DataFromFile::new(pos, size);
        self.skip(size);
        ret
    }

    /// An independent buffer over the next `size` bytes, whose origin is the
    /// current position; the bytes are consumed from this window.
    pub fn splice(&mut self, size: usize) -> (r: Result<BlockBuf, Error>)
        requires
            old(self).pos() <= u64::MAX,
        ensures
            final(self).same_window(old(self)),
            match r {
                Ok(b) => {
                    &&& size == 0 || old(self).spec_drained() + size <= old(self).window().len()
                    &&& final(self).spec_drained() == old(self).spec_drained() + size
                    &&& b.window().len() == size
                    &&& (old(self).spec_drained() + size <= old(self).window().len() ==> b.window()
                        == old(self).window().subrange(
                        old(self).spec_drained(),
                        old(self).spec_drained() + size,
                    ))
                    &&& b.origin() == old(self).pos()
                    &&& b.spec_drained() == 0
                    &&& b.spec_endianess() == old(self).spec_endianess()
                },
                Err(e) => {
                    &&& e.is_io()
                    &&& size > 0
                    &&& old(self).spec_drained() + size > old(self).window().len()
                    &&& *final(self) == *old(self)
                },
            },
    {
        let pos = self.start_in_file + self.drained as u64;
        let bytes = self.drain(size)?;
        Ok(BlockBuf { bytes, start_in_file: pos, drained: 0, endianess: self.endianess })
    }

    /// An independent buffer over everything left in the window, origin at
    /// the current position. This window is left as it is.
    pub(crate) fn splice_unlimited(&self) -> (r: BlockBuf)
        requires
            self.pos() <= u64::MAX,
        ensures
            r.window() == self.remaining(),
            r.origin() == self.pos(),
            r.spec_drained() == 0,
            r.spec_endianess() == self.spec_endianess(),
    {
        let pos = self.start_in_file + self.drained as u64;
        let start = if self.drained <= self.bytes.len() {
            self.drained
        } else {
            self.bytes.len()
        };
        let mut bytes: Vec<u8> = Vec::new();
        let mut i: usize = start;
        while i < self.bytes.len()
            invariant
                start <= i <= self.bytes@.len(),
                bytes@ == self.bytes@.subrange(start as int, i as int),
            decreases self.bytes@.len() - i,
        {
            bytes.push(self.bytes[i]);
            proof {
                assert(bytes@ =~= self.bytes@.subrange(start as int, i + 1));
            }
            i = i + 1;
        }
        proof {
            if self.spec_drained() <= self.bytes@.len() {
                assert(bytes@ =~= self.bytes@.skip(self.spec_drained()));
            } else {
                assert(bytes@ =~= Seq::<u8>::empty());
            }
        }
        BlockBuf { bytes, start_in_file: pos, drained: 0, endianess: self.endianess }
    }

    /// This buffer with its origin moved up to the current position:
    /// everything drained so far is forgotten.
    pub fn splice_all(self) -> (r: BlockBuf)
        requires
            self.pos() <= u64::MAX,
        ensures
            r.window() == self.remaining(),
            r.origin() == self.pos(),
            r.spec_drained() == 0,
            r.spec_endianess() == self.spec_endianess(),
    {
        self.splice_unlimited()
    }
}

/// A named region of the file that materialises into bytes only when asked.
pub struct DataFromFile {
    cache: Cached<(u64, usize), Vec<u8>>,
}

impl DataFromFile {
    /// The absolute file position the slice starts at.
    pub closed spec fn spec_pos(&self) -> int {
        self.cache.source.0 as int
    }

    /// How many bytes the slice covers.
    pub closed spec fn spec_size(&self) -> int {
        self.cache.source.1 as int
    }

    /// The bytes read by an earlier materialisation, if any.
    pub closed spec fn stored(&self) -> Option<Seq<u8>> {
        match self.cache.store {
            Some(v) => Some(v@),
            None => None,
        }
    }

    /// A slice of `size` bytes at `pos`, not yet materialised.
    pub fn new(pos: u64, size: usize) -> (r: DataFromFile)
        ensures
            r.spec_pos() == pos,
            r.spec_size() == size,
            r.stored() is None,
    {
        DataFromFile { cache: Cached::new((pos, size)) }
    }

    /// The slice's bytes: materialised from the file on the first call and
    /// retained, so later calls return the same bytes without reading.
    /// Fails with an `Io` error, and stores nothing, when the file ends
    /// before the slice does.
    pub fn get(&mut self, file: &Vec<u8>) -> (r: Result<&Vec<u8>, Error>)
        ensures
            final(self).spec_pos() == old(self).spec_pos(),
            final(self).spec_size() == old(self).spec_size(),
            match r {
                Ok(v) => {
                    &&& final(self).stored() == Some(v@)
                    &&& (old(self).stored() is Some ==> old(self).stored() == Some(v@))
                    &&& (old(self).stored() is None ==> old(self).spec_pos() + old(self).spec_size() <= file@.len() && v@ == file@.subrange(
                        old(self).spec_pos(),
                        old(self).spec_pos() + old(self).spec_size(),
                    ))
                },
                Err(e) => {
                    &&& e.is_io()
                    &&& old(self).stored() is None
                    &&& final(self).stored() is None
                    &&& old(self).spec_pos() + old(self).spec_size() > file@.len()
                },
            },
    {
        let producer = |src: &(u64, usize)| -> (r: Result<Vec<u8>, Error>)
            ensures
                match r {
                    Ok(v) => src.0 + src.1 <= file@.len() && v@ == file@.subrange(
                        src.0 as int,
                        src.0 + src.1 as int,
                    ),
                    Err(e) => e.is_io() && src.0 + src.1 > file@.len(),
                },
            { slice_of(file, src.0, src.1) };
        self.cache.get(producer)
    }
}

/// Copy of `size` bytes of the file starting at `pos`. Fails with an `Io`
/// error when the file ends before the slice does.
fn slice_of(file: &Vec<u8>, pos: u64, size: usize) -> (r: Result<Vec<u8>, Error>)
    ensures
        match r {
            Ok(v) => pos + size <= file@.len() && v@ == file@.subrange(pos as int, pos + size as int),
            Err(e) => e.is_io() && pos + size > file@.len(),
        },
{
    if pos > file.len() as u64 || size as u64 > file.len() as u64 - pos {
        return Err(Error::Io("the file ends before the slice does".to_owned()));
    }
    let start = pos as usize;
    let mut v: Vec<u8> = Vec::new();
    let mut i: usize = start;
    let end = start + size;
    while i < end
        invariant
            start <= i <= end,
            end == start + size <= file@.len(),
            v@ == file@.subrange(start as int, i as int),
        decreases end - i,
    {
        v.push(file[i]);
        proof {
            assert(v@ =~= file@.subrange(start as int, i + 1));
        }
        i = i + 1;
    }
    Ok(v)
}


/// The window's counts are plain machine quantities: the drained count and
/// the window's extent fit a `usize`, and the origin fits a file position.
pub proof fn lemma_block_buf_bounds(b: &BlockBuf)
    ensures
        0 <= b.spec_drained() <= usize::MAX,
        0 <= b.origin() <= u64::MAX,
        b.window().len() <= usize::MAX,
{
    vstd::std_specs::vec::axiom_spec_len(&b.bytes);
}

/// A lazy slice's bookkeeping is plain machine quantities: its position
/// fits a file position and its length fits a `usize`.
pub proof fn lemma_data_from_file_bounds(d: &DataFromFile)
    ensures
        0 <= d.spec_pos() <= u64::MAX,
        0 <= d.spec_size() <= usize::MAX,
{
}

} // verus!
