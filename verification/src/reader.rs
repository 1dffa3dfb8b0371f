use vstd::prelude::*;

use crate::bytes::{be_to_nat, lemma_be_to_nat_bound, pow256, u64_from_be};
use crate::error::{is_bare_not_enough, is_chained_not_enough, is_non_minimal, IsobufError};
use crate::var_int::{
    is_minimal_var_int, var_int_bytes_at, var_int_len, var_int_readable, var_int_value,
};

verus! {

/// A sequential decoder over an immutable byte buffer: a cursor walks the
/// buffer left to right, every read is bounds-checked, and a failed read
/// never leaves a partially advanced cursor (the one exception, kept from
/// the wire format's rules: a variable-length integer whose payload is
/// missing keeps its first byte consumed).
pub struct Reader {
    buf: Vec<u8>,
    pos: usize,
}

impl Reader {
    /// The backing bytes, which never change after construction.
    pub closed spec fn data(self) -> Seq<u8> {
        self.buf@
    }

    /// The offset of the next unread byte.
    pub closed spec fn cursor(self) -> int {
        self.pos as int
    }

    /// The cursor never runs past the end of the data.
    pub open spec fn wf(self) -> bool {
        0 <= self.cursor() <= self.data().len()
    }

    pub fn new(buf: Vec<u8>) -> (r: Reader)
        ensures
            r.wf(),
            r.data() == buf@,
            r.cursor() == 0,
    {
        Reader { buf, pos: 0 }
    }

    /// True when the cursor sits at (or past) the end of the data.
    pub fn eof(&self) -> (r: bool)
        ensures
            r == (self.cursor() >= self.data().len()),
    {
        self.pos >= self.buf.len()
    }

    /// How many bytes remain unread.
    pub fn remainder_len(&self) -> (r: usize)
        requires
            self.wf(),
        ensures
            r == self.data().len() - self.cursor(),
    {
        self.buf.len() - self.pos
    }

    /// Consumes exactly `len` bytes and returns them as an independent
    /// copy; when fewer than `len` bytes remain it fails and the cursor
    /// does not move.
    pub fn read(&mut self, len: usize) -> (r: Result<Vec<u8>, IsobufError>)
        requires
            old(self).wf(),
        ensures
            final(self).wf(),
            final(self).data() == old(self).data(),
            r is Ok <==> old(self).cursor() + len <= old(self).data().len(),
            (r matches Ok(bytes) ==> {
                &&& bytes@ == old(self).data().subrange(
                    old(self).cursor(),
                    old(self).cursor() + len,
                )
                &&& final(self).cursor() == old(self).cursor() + len
            }),
            (r matches Err(e) ==> {
                &&& final(self).cursor() == old(self).cursor()
                &&& is_bare_not_enough(e)
            }),
    {
        let total: usize = self.buf.len();
        if len > total - self.pos {
            return Err(IsobufError::NotEnoughDataError { source: None });
        }
        let pos: usize = self.pos;
        let mut out: Vec<u8> = Vec::new();
        let mut i: usize = 0;
        while i < len
            invariant
                pos + len <= total,
                total == self.buf@.len(),
                i <= len,
                out@ == self.buf@.subrange(pos as int, pos + i),
            decreases len - i,
        {
            out.push(self.buf[pos + i]);
            i = i + 1;
            proof {
                assert(out@ =~= self.buf@.subrange(pos as int, pos + i));
            }
        }
        self.pos = pos + len;
        Ok(out)
    }

    /// Consumes everything from the cursor to the end (possibly nothing)
    /// and returns it; never fails, and leaves the cursor at the end.
    pub fn read_remainder(&mut self) -> (r: Vec<u8>)
        requires
            old(self).wf(),
        ensures
            final(self).wf(),
            final(self).data() == old(self).data(),
            final(self).cursor() == old(self).data().len(),
            r@ == old(self).data().subrange(old(self).cursor(), old(self).data().len() as int),
    {
        let len: usize = self.buf.len() - self.pos;
        match self.read(len) {
            Ok(bytes) => bytes,
            Err(_) => vstd::pervasive::unreached(),
        }
    }

    /// Consumes one byte.
    pub fn read_u8(&mut self) -> (r: Result<u8, IsobufError>)
        requires
            old(self).wf(),
        ensures
            final(self).wf(),
            final(self).data() == old(self).data(),
            r is Ok <==> old(self).cursor() < old(self).data().len(),
            (r matches Ok(v) ==> {
                &&& v == old(self).data()[old(self).cursor()]
                &&& final(self).cursor() == old(self).cursor() + 1
            }),
            (r matches Err(e) ==> {
                &&& final(self).cursor() == old(self).cursor()
                &&& is_bare_not_enough(e)
            }),
    {
        if self.pos < self.buf.len() {
            let v: u8 = self.buf[self.pos];
            self.pos = self.pos + 1;
            Ok(v)
        } else {
            Err(IsobufError::NotEnoughDataError { source: None })
        }
    }

    /// Consumes two bytes as one big-endian integer.
    pub fn read_u16_be(&mut self) -> (r: Result<u16, IsobufError>)
        requires
            old(self).wf(),
        ensures
            final(self).wf(),
            final(self).data() == old(self).data(),
            r is Ok <==> old(self).cursor() + 2 <= old(self).data().len(),
            (r matches Ok(v) ==> {
                &&& v as nat == be_to_nat(
                    old(self).data().subrange(old(self).cursor(), old(self).cursor() + 2),
                )
                &&& final(self).cursor() == old(self).cursor() + 2
            }),
            (r matches Err(e) ==> {
                &&& final(self).cursor() == old(self).cursor()
                &&& is_bare_not_enough(e)
            }),
    {
        let bytes = match self.read(2) {
            Ok(b) => b,
            Err(e) => {
                return Err(e);
            },
        };
        let v: u64 = u64_from_be(&bytes, 0);
        proof {
            assert(bytes@.subrange(0, bytes@.len() as int) =~= bytes@);
            lemma_be_to_nat_bound(bytes@);
            assert(pow256(2) == 0x1_0000) by {
                reveal_with_fuel(pow256, 3);
            }
        }
        Ok(v as u16)
    }

    /// Consumes four bytes as one big-endian integer.
    pub fn read_u32_be(&mut self) -> (r: Result<u32, IsobufError>)
        requires
            old(self).wf(),
        ensures
            final(self).wf(),
            final(self).data() == old(self).data(),
            r is Ok <==> old(self).cursor() + 4 <= old(self).data().len(),
            (r matches Ok(v) ==> {
                &&& v as nat == be_to_nat(
                    old(self).data().subrange(old(self).cursor(), old(self).cursor() + 4),
                )
                &&& final(self).cursor() == old(self).cursor() + 4
            }),
            (r matches Err(e) ==> {
                &&& final(self).cursor() == old(self).cursor()
                &&& is_bare_not_enough(e)
            }),
    {
        let bytes = match self.read(4) {
            Ok(b) => b,
            Err(e) => {
                return Err(e);
            },
        };
        let v: u64 = u64_from_be(&bytes, 0);
        proof {
            assert(bytes@.subrange(0, bytes@.len() as int) =~= bytes@);
            lemma_be_to_nat_bound(bytes@);
            assert(pow256(4) == 0x1_0000_0000) by {
                reveal_with_fuel(pow256, 5);
            }
        }
        Ok(v as u32)
    }

    /// Consumes eight bytes as one big-endian integer.
    pub fn read_u64_be(&mut self) -> (r: Result<u64, IsobufError>)
        requires
            old(self).wf(),
        ensures
            final(self).wf(),
            final(self).data() == old(self).data(),
            r is Ok <==> old(self).cursor() + 8 <= old(self).data().len(),
            (r matches Ok(v) ==> {
                &&& v as nat == be_to_nat(
                    old(self).data().subrange(old(self).cursor(), old(self).cursor() + 8),
                )
                &&& final(self).cursor() == old(self).cursor() + 8
            }),
            (r matches Err(e) ==> {
                &&& final(self).cursor() == old(self).cursor()
                &&& is_bare_not_enough(e)
            }),
    {
        let bytes = match self.read(8) {
            Ok(b) => b,
            Err(e) => {
                return Err(e);
            },
        };
        let v: u64 = u64_from_be(&bytes, 0);
        proof {
            assert(bytes@.subrange(0, bytes@.len() as int) =~= bytes@);
        }
        Ok(v)
    }

    /// Consumes one complete variable-length integer encoding and returns
    /// its exact wire bytes, enforcing canonicality: a complete encoding
    /// whose value would fit a shorter form is rejected after it has been
    /// consumed in full, and a missing payload is reported with the inner
    /// shortfall as the error's source while the first byte stays
    /// consumed.
    pub fn read_var_int_buf(&mut self) -> (r: Result<Vec<u8>, IsobufError>)
        requires
            old(self).wf(),
        ensures
            final(self).wf(),
            final(self).data() == old(self).data(),
            ({
                let d = old(self).data();
                let p = old(self).cursor();
                &&& (r is Ok <==> var_int_readable(d, p) && is_minimal_var_int(
                    var_int_bytes_at(d, p),
                ))
                &&& (r matches Ok(enc) ==> {
                    &&& enc@ == var_int_bytes_at(d, p)
                    &&& final(self).cursor() == p + var_int_len(d[p])
                })
                &&& (p >= d.len() ==> final(self).cursor() == p && (r matches Err(e)
                    && is_chained_not_enough(e)))
                &&& (p < d.len() && !var_int_readable(d, p) ==> final(self).cursor() == p + 1 && (
                r matches Err(e) && is_chained_not_enough(e)))
                &&& (var_int_readable(d, p) && !is_minimal_var_int(var_int_bytes_at(d, p))
                    ==> final(self).cursor() == p + var_int_len(d[p]) && (r matches Err(e)
                    && is_non_minimal(e)))
            }),
    {
        let ghost d: Seq<u8> = self.buf@;
        let ghost p: int = self.pos as int;
        let first: u8 = match self.read_u8() {
            Ok(b) => b,
            Err(e) => {
                return Err(IsobufError::NotEnoughDataError { source: Some(Box::new(e)) });
            },
        };
        if first == 0xfd {
            let payload = match self.read(2) {
                Ok(b) => b,
                Err(e) => {
                    return Err(IsobufError::NotEnoughDataError { source: Some(Box::new(e)) });
                },
            };
            let value: u64 = u64_from_be(&payload, 0);
            proof {
                assert(payload@.subrange(0, payload@.len() as int) =~= payload@);
                assert(var_int_bytes_at(d, p).subrange(1, 3) =~= payload@);
            }
            if value < 0xfd {
                return Err(IsobufError::NonMinimalEncodingError { source: None });
            }
            let mut out: Vec<u8> = Vec::new();
            out.push(first);
            let mut rest = payload;
            out.append(&mut rest);
            proof {
                assert(out@ =~= var_int_bytes_at(d, p));
            }
            Ok(out)
        } else if first == 0xfe {
            let payload = match self.read(4) {
                Ok(b) => b,
                Err(e) => {
                    return Err(IsobufError::NotEnoughDataError { source: Some(Box::new(e)) });
                },
            };
            let value: u64 = u64_from_be(&payload, 0);
            proof {
                assert(payload@.subrange(0, payload@.len() as int) =~= payload@);
                assert(var_int_bytes_at(d, p).subrange(1, 5) =~= payload@);
            }
            if value < 0x1_0000 {
                return Err(IsobufError::NonMinimalEncodingError { source: None });
            }
            let mut out: Vec<u8> = Vec::new();
            out.push(first);
            let mut rest = payload;
            out.append(&mut rest);
            proof {
                assert(out@ =~= var_int_bytes_at(d, p));
            }
            Ok(out)
        } else if first == 0xff {
            let payload = match self.read(8) {
                Ok(b) => b,
                Err(e) => {
                    return Err(IsobufError::NotEnoughDataError { source: Some(Box::new(e)) });
                },
            };
            let value: u64 = u64_from_be(&payload, 0);
            proof {
                assert(payload@.subrange(0, payload@.len() as int) =~= payload@);
                assert(var_int_bytes_at(d, p).subrange(1, 9) =~= payload@);
            }
            if value < 0x1_0000_0000 {
                return Err(IsobufError::NonMinimalEncodingError { source: None });
            }
            let mut out: Vec<u8> = Vec::new();
            out.push(first);
            let mut rest = payload;
            out.append(&mut rest);
            proof {
                assert(out@ =~= var_int_bytes_at(d, p));
            }
            Ok(out)
        } else {
            let mut out: Vec<u8> = Vec::new();
            out.push(first);
            proof {
                assert(out@ =~= var_int_bytes_at(d, p));
            }
            Ok(out)
        }
    }

    /// Consumes one complete variable-length integer encoding and returns
    /// the value it carries; failures of the raw read pass through
    /// unchanged.
    pub fn read_var_int(&mut self) -> (r: Result<u64, IsobufError>)
        requires
            old(self).wf(),
        ensures
            final(self).wf(),
            final(self).data() == old(self).data(),
            ({
                let d = old(self).data();
                let p = old(self).cursor();
                &&& (r is Ok <==> var_int_readable(d, p) && is_minimal_var_int(
                    var_int_bytes_at(d, p),
                ))
                &&& (r matches Ok(value) ==> {
                    &&& value as nat == var_int_value(var_int_bytes_at(d, p))
                    &&& final(self).cursor() == p + var_int_len(d[p])
                })
                &&& (p >= d.len() ==> final(self).cursor() == p && (r matches Err(e)
                    && is_chained_not_enough(e)))
                &&& (p < d.len() && !var_int_readable(d, p) ==> final(self).cursor() == p + 1 && (
                r matches Err(e) && is_chained_not_enough(e)))
                &&& (var_int_readable(d, p) && !is_minimal_var_int(var_int_bytes_at(d, p))
                    ==> final(self).cursor() == p + var_int_len(d[p]) && (r matches Err(e)
                    && is_non_minimal(e)))
            }),
    {
        let enc = match self.read_var_int_buf() {
            Ok(b) => b,
            Err(e) => {
                return Err(e);
            },
        };
        let first: u8 = enc[0];
        if first == 0xfd || first == 0xfe || first == 0xff {
            let value: u64 = u64_from_be(&enc, 1);
            Ok(value)
        } else {
            Ok(first as u64)
        }
    }
}

/// Remainder reads run to exhaustion: once the cursor sits at the end of
/// the data the end is reached, and the remainder from there is the empty
/// sequence, so a further remainder read returns nothing.
pub proof fn lemma_read_remainder_exhausts(r: Reader)
    requires
        r.wf(),
        r.cursor() == r.data().len(),
    ensures
        r.cursor() >= r.data().len(),
        r.data().subrange(r.cursor(), r.data().len() as int) == Seq::<u8>::empty(),
{
    assert(r.data().subrange(r.cursor(), r.data().len() as int) =~= Seq::<u8>::empty());
}

} // verus!
