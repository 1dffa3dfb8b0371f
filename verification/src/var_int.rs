use vstd::prelude::*;

use crate::bytes::{be_bytes_of, be_to_nat, lemma_be_bytes_of_value, pow256};

verus! {

/// Total width in bytes of the variable-length integer encoding announced
/// by its first byte: one byte carries the value itself up to 0xfc, while
/// 0xfd, 0xfe and 0xff announce a 2-, 4- or 8-byte big-endian payload.
pub open spec fn var_int_len(first: u8) -> int {
    if first == 0xfd {
        3
    } else if first == 0xfe {
        5
    } else if first == 0xff {
        9
    } else {
        1
    }
}

/// Smallest value the form announced by `first` is allowed to carry: any
/// smaller value would fit a shorter form.
pub open spec fn var_int_floor(first: u8) -> nat {
    if first == 0xfd {
        0xfd
    } else if first == 0xfe {
        0x1_0000
    } else if first == 0xff {
        0x1_0000_0000
    } else {
        0
    }
}

/// `enc` is one complete wire encoding: a first byte followed by exactly
/// the payload it announces.
pub open spec fn is_var_int_encoding(enc: Seq<u8>) -> bool {
    enc.len() >= 1 && enc.len() == var_int_len(enc[0])
}

/// The unsigned value a complete encoding carries.
pub open spec fn var_int_value(enc: Seq<u8>) -> nat
    recommends
        is_var_int_encoding(enc),
{
    if enc.len() == 1 {
        enc[0] as nat
    } else {
        be_to_nat(enc.subrange(1, enc.len() as int))
    }
}

/// A complete encoding is canonical when its value could not fit a
/// shorter form.
pub open spec fn is_minimal_var_int(enc: Seq<u8>) -> bool
    recommends
        is_var_int_encoding(enc),
{
    var_int_value(enc) >= var_int_floor(enc[0])
}

/// The data at `pos` begins with a complete encoding.
pub open spec fn var_int_readable(data: Seq<u8>, pos: int) -> bool {
    &&& 0 <= pos < data.len()
    &&& pos + var_int_len(data[pos]) <= data.len()
}

/// The complete encoding that begins at `pos`.
pub open spec fn var_int_bytes_at(data: Seq<u8>, pos: int) -> Seq<u8>
    recommends
        var_int_readable(data, pos),
{
    data.subrange(pos, pos + var_int_len(data[pos]))
}

/// The canonical (shortest) encoding of `value`.
pub open spec fn var_int_encoding_of(value: nat) -> Seq<u8> {
    if value <= 0xfc {
        seq![value as u8]
    } else if value <= 0xffff {
        seq![0xfdu8] + be_bytes_of(value, 2)
    } else if value <= 0xffff_ffff {
        seq![0xfeu8] + be_bytes_of(value, 4)
    } else {
        seq![0xffu8] + be_bytes_of(value, 8)
    }
}

/// Emits the `n`-byte big-endian representation of `value`.
fn be_bytes_exec(value: u64, n: usize) -> (r: Vec<u8>)
    ensures
        r@ == be_bytes_of(value as nat, n as nat),
    decreases n,
{
    if n == 0 {
        Vec::new()
    } else {
        let mut r = be_bytes_exec(value / 256, n - 1);
        r.push((value % 256) as u8);
        r
    }
}

/// Encodes `value` in the canonical variable-length form: the form a
/// decoder that enforces minimality accepts.
pub fn encode_var_int(value: u64) -> (r: Vec<u8>)
    ensures
        r@ == var_int_encoding_of(value as nat),
{
    if value <= 0xfc {
        let mut r: Vec<u8> = Vec::new();
        r.push(value as u8);
        proof {
            assert(r@ =~= var_int_encoding_of(value as nat));
        }
        r
    } else if value <= 0xffff {
        let mut r: Vec<u8> = Vec::new();
        r.push(0xfd);
        let mut payload = be_bytes_exec(value, 2);
        r.append(&mut payload);
        proof {
            assert(r@ =~= var_int_encoding_of(value as nat));
        }
        r
    } else if value <= 0xffff_ffff {
        let mut r: Vec<u8> = Vec::new();
        r.push(0xfe);
        let mut payload = be_bytes_exec(value, 4);
        r.append(&mut payload);
        proof {
            assert(r@ =~= var_int_encoding_of(value as nat));
        }
        r
    } else {
        let mut r: Vec<u8> = Vec::new();
        r.push(0xff);
        let mut payload = be_bytes_exec(value, 8);
        r.append(&mut payload);
        proof {
            assert(r@ =~= var_int_encoding_of(value as nat));
        }
        r
    }
}

/// Round trip: the canonical encoding of any 64-bit value is a complete,
/// canonical encoding that decodes to that value; read at its start it is
/// the whole sequence.
pub proof fn lemma_var_int_round_trip(value: u64)
    ensures
        is_var_int_encoding(var_int_encoding_of(value as nat)),
        is_minimal_var_int(var_int_encoding_of(value as nat)),
        var_int_value(var_int_encoding_of(value as nat)) == value as nat,
        var_int_readable(var_int_encoding_of(value as nat), 0),
        var_int_bytes_at(var_int_encoding_of(value as nat), 0) == var_int_encoding_of(
            value as nat,
        ),
{
    let v: nat = value as nat;
    let enc = var_int_encoding_of(v);
    assert(pow256(2) == 0x1_0000 && pow256(4) == 0x1_0000_0000 && pow256(8)
        == 0x1_0000_0000_0000_0000) by {
        reveal_with_fuel(pow256, 9);
    }
    if v <= 0xfc {
    } else if v <= 0xffff {
        lemma_be_bytes_of_value(v, 2);
        assert(enc.subrange(1, enc.len() as int) =~= be_bytes_of(v, 2));
    } else if v <= 0xffff_ffff {
        lemma_be_bytes_of_value(v, 4);
        assert(enc.subrange(1, enc.len() as int) =~= be_bytes_of(v, 4));
    } else {
        lemma_be_bytes_of_value(v, 8);
        assert(enc.subrange(1, enc.len() as int) =~= be_bytes_of(v, 8));
    }
    assert(var_int_bytes_at(enc, 0) =~= enc);
}

} // verus!
