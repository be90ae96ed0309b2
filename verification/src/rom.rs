//! Big-endian words and guarded writes into a Mega Drive ROM image.

use vstd::prelude::*;
use crate::hex::Error;

verus! {

/// Offset of the header checksum word.
pub const CHECKSUM_OFFSET: usize = 0x18E;

/// First byte covered by the header checksum.
pub const CHECKSUM_START: usize = 0x200;

/// Big-endian 16-bit word at `i`.
pub open spec fn be16(s: Seq<u8>, i: int) -> int {
    s[i] as int * 256 + s[i + 1] as int
}

/// Big-endian 32-bit word at `i`.
pub open spec fn be32(s: Seq<u8>, i: int) -> int {
    be16(s, i) * 65536 + be16(s, i + 2)
}

/// Two's-complement value of a 16-bit word.
pub open spec fn signed16(w: int) -> int {
    if w >= 32768 { w - 65536 } else { w }
}

/// Target of a 68000 PC-relative operand whose extension word `displacement`
/// follows the opcode at `base`: `base + 2 + displacement`, wrapped to a
/// machine address.
pub open spec fn relative_target(base: int, displacement: int) -> int {
    (base + 2 + signed16(displacement)) % (usize::MAX as int + 1)
}

/// The two big-endian bytes of a word.
pub open spec fn word_bytes(word: u16) -> Seq<u8> {
    seq![(word / 256) as u8, (word % 256) as u8]
}

/// Read the big-endian word at `offset`.
pub fn read_be16(bytes: &[u8], offset: usize) -> (word: u16)
    requires
        offset + 2 <= bytes@.len(),
    ensures
        word as int == be16(bytes@, offset as int),
{
    (bytes[offset] as u16) * 256 + bytes[offset + 1] as u16
}

/// Read the big-endian long word at `offset`.
pub fn read_be32(bytes: &[u8], offset: usize) -> (word: u32)
    requires
        offset + 4 <= bytes@.len(),
    ensures
        word as int == be32(bytes@, offset as int),
{
    let _len = bytes.len();
    let high = read_be16(bytes, offset) as u32;
    let low = read_be16(bytes, offset + 2) as u32;
    high * 65536 + low
}

/// Resolve a PC-relative displacement word read after the opcode at `base`.
pub fn branch_word_target(base: usize, displacement: u16) -> (target: usize)
    ensures
        target as int == relative_target(base as int, displacement as int),
{
    let signed: i128 = if displacement >= 0x8000 {
        displacement as i128 - 0x10000
    } else {
        displacement as i128
    };
    let modulus: i128 = usize::MAX as i128 + 1;
    let raw: i128 = base as i128 + 2 + signed;
    let wrapped: i128 = if raw < 0 {
        raw + modulus
    } else if raw >= modulus {
        raw - modulus
    } else {
        raw
    };
    wrapped as usize
}

/// Append a big-endian word.
pub fn append_word(output: &mut Vec<u8>, word: u16)
    ensures
        final(output)@ == old(output)@ + word_bytes(word),
{
    output.push((word / 256) as u8);
    output.push((word % 256) as u8);
    assert(final(output)@ =~= old(output)@ + word_bytes(word));
}

/// The `length` bytes at `offset`, if the range lies inside `data`.
pub fn source_range(data: &[u8], offset: usize, length: usize) -> (range: Result<&[u8], Error>)
    ensures
        range is Ok <==> offset + length <= data@.len(),
        range matches Ok(r) ==> r@ == data@.subrange(offset as int, offset + length),
{
    if offset > data.len() || length > data.len() - offset {
        return Err("ROM range lies outside the image");
    }
    Ok(&data[offset..offset + length])
}

/// `output` equals `before` except that `replacement` stands at `offset`.
pub open spec fn written(before: Seq<u8>, offset: int, replacement: Seq<u8>) -> Seq<u8> {
    before.subrange(0, offset) + replacement + before.subrange(
        offset + replacement.len(),
        before.len() as int,
    )
}

/// Overwrite `expected` at `offset` with `replacement`, refusing when the
/// bytes found there are not the expected ones.
pub fn apply_expected_write(
    output: &mut [u8],
    offset: usize,
    expected: &[u8],
    replacement: &[u8],
) -> (result: Result<(), Error>)
    ensures
        result is Ok <==> (expected@.len() == replacement@.len() && offset + expected@.len()
            <= old(output)@.len() && old(output)@.subrange(
            offset as int,
            offset + expected@.len(),
        ) == expected@),
        result is Ok ==> final(output)@ == written(old(output)@, offset as int, replacement@),
        result is Err ==> final(output)@ == old(output)@,
{
    if expected.len() != replacement.len() || offset > output.len() || expected.len()
        > output.len() - offset {
        return Err("expected write has mismatched lengths or lies outside the ROM");
    }
    let mut i: usize = 0;
    while i < expected.len()
        invariant
            offset + expected@.len() <= output@.len(),
            output@ == old(output)@,
            i <= expected@.len(),
            forall|j: int| 0 <= j < i ==> output@[offset + j] == expected@[j],
        decreases expected@.len() - i,
    {
        if output[offset + i] != expected[i] {
            assert(old(output)@.subrange(offset as int, offset + expected@.len())[i as int]
                != expected@[i as int]);
            return Err("ROM bytes differ from the expected source bytes");
        }
        i = i + 1;
    }
    assert(old(output)@.subrange(offset as int, offset + expected@.len()) =~= expected@);
    let mut k: usize = 0;
    while k < replacement.len()
        invariant
            offset + replacement@.len() <= output.len(),
            output@.len() == old(output)@.len(),
            k <= replacement@.len(),
            forall|j: int|
                0 <= j < output@.len() ==> #[trigger] output@[j] == if offset <= j < offset + k {
                    replacement@[j - offset]
                } else {
                    old(output)@[j]
                },
        decreases replacement@.len() - k,
    {
        output[offset + k] = replacement[k];
        k = k + 1;
    }
    assert(output@ =~= written(old(output)@, offset as int, replacement@));
    Ok(())
}

/// Byte `index` lies in one of the half-open `ranges`.
pub open spec fn in_some_range(ranges: Seq<(usize, usize)>, index: int) -> bool {
    exists|k: int| 0 <= k < ranges.len() && #[trigger] ranges[k].0 <= index && index < ranges[k].1
}

/// Every byte that differs between `baseline` and `output` is declared.
pub open spec fn only_ranges_changed(
    baseline: Seq<u8>,
    output: Seq<u8>,
    ranges: Seq<(usize, usize)>,
) -> bool {
    &&& baseline.len() == output.len()
    &&& forall|i: int|
        0 <= i < baseline.len() && #[trigger] baseline[i] != output[i] ==> in_some_range(
            ranges,
            i,
        )
}

fn index_in_ranges(ranges: &[(usize, usize)], index: usize) -> (found: bool)
    ensures
        found == in_some_range(ranges@, index as int),
{
    let mut k: usize = 0;
    while k < ranges.len()
        invariant
            k <= ranges@.len(),
            forall|j: int| 0 <= j < k ==> !(#[trigger] ranges@[j].0 <= index && index < ranges@[j].1),
        decreases ranges@.len() - k,
    {
        let (start, end) = ranges[k];
        if start <= index && index < end {
            return true;
        }
        k = k + 1;
    }
    false
}

/// Refuse an output image that differs from `baseline` outside the declared ranges.
pub fn validate_only_ranges_changed(
    baseline: &[u8],
    output: &[u8],
    ranges: &[(usize, usize)],
) -> (result: Result<(), Error>)
    ensures
        result is Ok <==> only_ranges_changed(baseline@, output@, ranges@),
{
    if baseline.len() != output.len() {
        return Err("output ROM length differs from its baseline");
    }
    let mut i: usize = 0;
    while i < baseline.len()
        invariant
            baseline@.len() == output@.len(),
            i <= baseline@.len(),
            forall|j: int|
                0 <= j < i && #[trigger] baseline@[j] != output@[j] ==> in_some_range(ranges@, j),
        decreases baseline@.len() - i,
    {
        if baseline[i] != output[i] && !index_in_ranges(ranges, i) {
            return Err("output ROM changed bytes outside the declared writes");
        }
        i = i + 1;
    }
    Ok(())
}

/// Wrapping sum of the big-endian words from `start` while a whole word remains.
pub open spec fn checksum_from(rom: Seq<u8>, start: int) -> int
    decreases rom.len() - start,
{
    if start < 0 || start + 2 > rom.len() {
        0
    } else {
        (be16(rom, start) + checksum_from(rom, start + 2)) % 65536
    }
}

/// The header checksum of a ROM image.
pub open spec fn spec_checksum(rom: Seq<u8>) -> int {
    checksum_from(rom, CHECKSUM_START as int)
}

/// Mega Drive header checksum: the wrapping sum of the words from 0x200.
pub fn calculate_checksum(rom: &[u8]) -> (checksum: u16)
    ensures
        checksum as int == spec_checksum(rom@),
{
    if rom.len() < CHECKSUM_START + 2 {
        return 0;
    }
    // Sum from the last whole word down to CHECKSUM_START.
    let mut start: usize = CHECKSUM_START + (rom.len() - CHECKSUM_START) / 2 * 2;
    let mut sum: u16 = 0;
    assert(checksum_from(rom@, start as int) == 0);
    while start > CHECKSUM_START
        invariant
            CHECKSUM_START <= start <= rom@.len(),
            (start - CHECKSUM_START) % 2 == 0,
            sum as int == checksum_from(rom@, start as int),
        decreases start,
    {
        start = start - 2;
        let word = read_be16(rom, start);
        sum = ((sum as u32 + word as u32) % 65536) as u16;
    }
    sum
}

} // verus!
