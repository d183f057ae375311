//! A check on LZ10 / LZ11 streams, made before they are handed to the
//! decompressor: every back-reference must point into the bytes already
//! produced.
use vstd::prelude::*;

use crate::decoder::le_u32;

verus! {

/// The length and displacement of the back-reference token of `ver`
/// (0 for LZ10, 1 for LZ11) at `pos`, and the bytes it takes; `None` where
/// the input ends inside the token.
pub open spec fn lz_token(input: Seq<u8>, ver: nat, pos: nat) -> Option<(nat, nat, nat)> {
    if pos + 2 > input.len() {
        None
    } else {
        let lenmsb = input[pos as int] as nat;
        let lsb = input[pos + 1int] as nat;
        let n = lenmsb / 16;
        let disp = (lenmsb % 16) * 256 + lsb;
        if ver == 0 {
            Some((n + 3, disp, 2))
        } else if n > 1 {
            Some((n + 1, disp, 2))
        } else if n == 0 {
            if pos + 3 > input.len() {
                None
            } else {
                let msb = input[pos + 2int] as nat;
                Some(((lenmsb % 16) * 16 + lsb / 16 + 0x11, (lsb % 16) * 256 + msb, 3))
            }
        } else if pos + 4 > input.len() {
            None
        } else {
            let byte1 = input[pos + 2int] as nat;
            let byte2 = input[pos + 3int] as nat;
            Some(((lenmsb % 16) * 4096 + lsb * 16 + byte1 / 16 + 0x111, (byte1 % 16) * 256 + byte2, 4))
        }
    }
}

/// Walks the tokens of a stream from byte `pos` on, with `produced` bytes
/// of output so far out of `length`, and the flag byte `flags` with `bits`
/// of its flags left (the next one in its top bit). Holds when no
/// back-reference met before the output is complete, or before the input
/// ends, points before the start of the output.
pub open spec fn lz_walk(
    input: Seq<u8>,
    ver: nat,
    length: nat,
    pos: nat,
    produced: nat,
    flags: nat,
    bits: nat,
) -> bool
    decreases input.len() - pos,
{
    if produced >= length || pos >= input.len() {
        true
    } else if bits == 0 {
        lz_walk(input, ver, length, pos + 1, produced, input[pos as int] as nat, 8)
    } else if flags / 128 == 0 {
        lz_walk(input, ver, length, pos + 1, produced + 1, (flags % 128) * 2, (bits - 1) as nat)
    } else {
        match lz_token(input, ver, pos) {
            None => true,
            Some((len, disp, size)) => disp + 1 <= produced && lz_walk(
                input,
                ver,
                length,
                pos + size,
                produced + len,
                (flags % 128) * 2,
                (bits - 1) as nat,
            ),
        }
    }
}

/// Whether every back-reference of the LZ10 / LZ11 stream `input` points
/// into the output already produced. The header is a little-endian word:
/// the magic number 0x10 or 0x11 in its low byte, the decompressed length
/// above it; an LZ11 header with length zero is followed by a second word
/// holding the length. A stream that ends early, or with another magic
/// number, is refused by the decompressor with an error and holds here.
pub open spec fn lz_references_in_range(input: Seq<u8>) -> bool {
    if input.len() < 4 {
        true
    } else {
        let magic = le_u32(input, 0) % 256;
        let length = (le_u32(input, 0) / 256) as nat;
        if magic != 0x10 && magic != 0x11 {
            true
        } else if magic == 0x11 && length == 0 {
            input.len() < 8 || lz_walk(input, 1, le_u32(input, 4) as nat, 8, 0, 0, 0)
        } else {
            lz_walk(input, if magic == 0x10 { 0 } else { 1 }, length, 4, 0, 0, 0)
        }
    }
}

/// The token at `pos`, as `lz_token` states it.
fn read_token(input: &[u8], ver: u8, pos: usize) -> (r: Option<(u64, u64, usize)>)
    requires
        ver <= 1,
    ensures
        match r {
            None => lz_token(input@, ver as nat, pos as nat) is None,
            Some(t) => {
                &&& lz_token(input@, ver as nat, pos as nat) == Some((t.0 as nat, t.1 as nat, t.2 as nat))
                &&& t.0 < 0x1_0000 + 0x1000
                &&& 2 <= t.2 <= 4
                &&& pos + t.2 <= input@.len()
            },
        },
{
    let len = input.len();
    if pos > len || len - pos < 2 {
        return None;
    }
    let lenmsb = input[pos] as u64;
    let lsb = input[pos + 1] as u64;
    let n = lenmsb / 16;
    let disp = (lenmsb % 16) * 256 + lsb;
    if ver == 0 {
        Some((n + 3, disp, 2))
    } else if n > 1 {
        Some((n + 1, disp, 2))
    } else if n == 0 {
        if len - pos < 3 {
            return None;
        }
        let msb = input[pos + 2] as u64;
        Some(((lenmsb % 16) * 16 + lsb / 16 + 0x11, (lsb % 16) * 256 + msb, 3))
    } else {
        if len - pos < 4 {
            return None;
        }
        let byte1 = input[pos + 2] as u64;
        let byte2 = input[pos + 3] as u64;
        Some(((lenmsb % 16) * 4096 + lsb * 16 + byte1 / 16 + 0x111, (byte1 % 16) * 256 + byte2, 4))
    }
}

/// Walks the tokens from the state given, as `lz_walk` states it.
fn check_walk(input: &[u8], ver: u8, length: u64, start: usize) -> (r: bool)
    requires
        ver <= 1,
        length <= u32::MAX,
    ensures
        r == lz_walk(input@, ver as nat, length as nat, start as nat, 0, 0, 0),
{
    let mut pos: usize = start;
    let mut produced: u64 = 0;
    let mut flags: u64 = 0;
    let mut bits: u64 = 0;
    loop
        invariant
            ver <= 1,
            length <= u32::MAX,
            produced < length + 0x2_0000,
            flags < 256,
            bits <= 8,
            lz_walk(input@, ver as nat, length as nat, pos as nat, produced as nat, flags as nat, bits as nat)
                == lz_walk(input@, ver as nat, length as nat, start as nat, 0, 0, 0),
        decreases input@.len() - pos,
    {
        if produced >= length || pos >= input.len() {
            return true;
        }
        if bits == 0 {
            flags = input[pos] as u64;
            bits = 8;
            pos = pos + 1;
        } else if flags / 128 == 0 {
            produced = produced + 1;
            flags = (flags % 128) * 2;
            bits = bits - 1;
            pos = pos + 1;
        } else {
            match read_token(input, ver, pos) {
                None => {
                    return true;
                },
                Some((len, disp, size)) => {
                    if disp + 1 > produced {
                        return false;
                    }
                    produced = produced + len;
                    flags = (flags % 128) * 2;
                    bits = bits - 1;
                    pos = pos + size;
                },
            }
        }
    }
}

/// Whether every back-reference of the LZ10 / LZ11 stream `input` points
/// into the output already produced.
pub fn lz_references_checked(input: &[u8]) -> (r: bool)
    ensures
        r == lz_references_in_range(input@),
{
    if input.len() < 4 {
        return true;
    }
    let word = (input[0] as u64) + 256 * (input[1] as u64) + 65536 * (input[2] as u64) + 16777216 * (
    input[3] as u64);
    let magic = word % 256;
    let length = word / 256;
    if magic != 0x10 && magic != 0x11 {
        true
    } else if magic == 0x11 && length == 0 {
        if input.len() < 8 {
            return true;
        }
        let second = (input[4] as u64) + 256 * (input[5] as u64) + 65536 * (input[6] as u64)
            + 16777216 * (input[7] as u64);
        check_walk(input, 1, second, 8)
    } else {
        check_walk(input, if magic == 0x10 { 0 } else { 1 }, length, 4)
    }
}

} // verus!
