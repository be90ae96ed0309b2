//! Insertion of a rebuilt pack into the output ROM: the pack header at each
//! of its JP header offsets, the pack bank in an expanded bank, and the
//! header checksum, each write checked against the bytes it replaces.

use vstd::prelude::*;
use crate::hex::Error;
use crate::sets::copy_bytes;
use crate::rom::{
    CHECKSUM_OFFSET, apply_expected_write, calculate_checksum, in_some_range, only_ranges_changed,
    source_range, spec_checksum, validate_only_ranges_changed, word_bytes, written,
};

verus! {

/// `image` after the pack header is written at the first `n` header offsets.
pub open spec fn headers_written(image: Seq<u8>, offsets: Seq<usize>, header: Seq<u8>, n: int) -> Seq<u8>
    decreases n,
{
    if n <= 0 {
        image
    } else {
        written(headers_written(image, offsets, header, n - 1), offsets[n - 1] as int, header)
    }
}

/// Header write `k` finds the JP header bytes of `source`.
pub open spec fn header_write_ok(image: Seq<u8>, source: Seq<u8>, offsets: Seq<usize>, header: Seq<u8>, k: int) -> bool {
    let o = offsets[k] as int;
    &&& o + header.len() <= source.len()
    &&& o + header.len() <= image.len()
    &&& headers_written(image, offsets, header, k).subrange(o, o + header.len()) == source.subrange(o, o + header.len())
}

/// Each of the first `n` header writes finds the JP header bytes of `source`.
pub open spec fn headers_ok(image: Seq<u8>, source: Seq<u8>, offsets: Seq<usize>, header: Seq<u8>, n: int) -> bool {
    forall|k: int| 0 <= k < n ==> #[trigger] header_write_ok(image, source, offsets, header, k)
}

/// `image` with the headers and then the bank written.
pub open spec fn packed_image(image: Seq<u8>, offsets: Seq<usize>, header: Seq<u8>, bank_offset: int, bank: Seq<u8>) -> Seq<u8> {
    written(headers_written(image, offsets, header, offsets.len() as int), bank_offset, bank)
}

/// The final image: the packed image with its header checksum.
pub open spec fn inserted_image(image: Seq<u8>, offsets: Seq<usize>, header: Seq<u8>, bank_offset: int, bank: Seq<u8>) -> Seq<u8> {
    let packed = packed_image(image, offsets, header, bank_offset, bank);
    written(packed, 0x18E, word_bytes(spec_checksum(packed) as u16))
}

/// The ranges an insertion declares: each header, the bank, the checksum.
pub open spec fn declared_ranges(offsets: Seq<usize>, header_len: int, bank_offset: int, bank_len: int) -> Seq<(usize, usize)> {
    offsets.map_values(|o: usize| (o, (o + header_len) as usize)) + seq![
        (bank_offset as usize, (bank_offset + bank_len) as usize),
        (0x18Eusize, 0x190usize),
    ]
}

/// Everything an insertion requires of the output image.
pub open spec fn insertion_ok(
    image: Seq<u8>,
    source: Seq<u8>,
    offsets: Seq<usize>,
    header: Seq<u8>,
    bank_offset: int,
    bank: Seq<u8>,
    bank_limit: int,
    fill: u8,
) -> bool {
    let with_headers = headers_written(image, offsets, header, offsets.len() as int);
    &&& bank_offset + bank.len() <= bank_limit
    &&& bank_offset + bank.len() <= image.len()
    &&& headers_ok(image, source, offsets, header, offsets.len() as int)
    &&& forall|i: int| bank_offset <= i < bank_offset + bank.len() ==> #[trigger] with_headers[i] == fill
    &&& 0x190 <= image.len()
    &&& packed_image(image, offsets, header, bank_offset, bank).subrange(0x18E, 0x190) == image.subrange(0x18E, 0x190)
}

proof fn lemma_written_len(before: Seq<u8>, offset: int, replacement: Seq<u8>)
    requires
        0 <= offset,
        offset + replacement.len() <= before.len(),
    ensures
        written(before, offset, replacement).len() == before.len(),
        forall|i: int|
            0 <= i < before.len() && !(offset <= i < offset + replacement.len()) ==> #[trigger] written(
                before,
                offset,
                replacement,
            )[i] == before[i],
{
    assert forall|i: int|
        0 <= i < before.len() && !(offset <= i < offset + replacement.len()) implies #[trigger] written(
            before,
            offset,
            replacement,
        )[i] == before[i] by {
        if i >= offset + replacement.len() {
            assert(written(before, offset, replacement)[i] == before.subrange(offset + replacement.len(), before.len() as int)[i - offset - replacement.len()]);
        }
    }
}

proof fn lemma_headers_frame(image: Seq<u8>, source: Seq<u8>, offsets: Seq<usize>, header: Seq<u8>, n: int)
    requires
        0 <= n <= offsets.len(),
        headers_ok(image, source, offsets, header, n),
    ensures
        headers_written(image, offsets, header, n).len() == image.len(),
        forall|i: int|
            0 <= i < image.len() && #[trigger] headers_written(image, offsets, header, n)[i] != image[i]
                ==> exists|k: int| 0 <= k < n && #[trigger] offsets[k] <= i < offsets[k] + header.len(),
    decreases n,
{
    if n > 0 {
        lemma_headers_frame(image, source, offsets, header, n - 1);
        let prev = headers_written(image, offsets, header, n - 1);
        let o = offsets[n - 1] as int;
        assert(header_write_ok(image, source, offsets, header, n - 1));
        assert(o + header.len() <= image.len());
        lemma_written_len(prev, o, header);
        assert forall|i: int|
            0 <= i < image.len() && #[trigger] headers_written(image, offsets, header, n)[i] != image[i]
                implies exists|k: int| 0 <= k < n && #[trigger] offsets[k] <= i < offsets[k] + header.len() by {
            if o <= i < o + header.len() {
                assert(offsets[n - 1] <= i < offsets[n - 1] + header.len());
            } else {
                assert(headers_written(image, offsets, header, n)[i] == prev[i]);
                let k = choose|k: int| 0 <= k < n - 1 && #[trigger] offsets[k] <= i < offsets[k] + header.len();
                assert(0 <= k < n && offsets[k] <= i < offsets[k] + header.len());
            }
        }
    }
}

/// An insertion changes no byte outside the header, bank and checksum
/// ranges it declares.
pub proof fn lemma_insertion_frame(
    image: Seq<u8>,
    source: Seq<u8>,
    offsets: Seq<usize>,
    header: Seq<u8>,
    bank_offset: int,
    bank: Seq<u8>,
    bank_limit: int,
    fill: u8,
)
    requires
        0 <= bank_offset,
        bank_offset + bank.len() <= usize::MAX,
        forall|k: int| 0 <= k < offsets.len() ==> #[trigger] offsets[k] + header.len() <= usize::MAX,
        insertion_ok(image, source, offsets, header, bank_offset, bank, bank_limit, fill),
    ensures
        only_ranges_changed(
            image,
            inserted_image(image, offsets, header, bank_offset, bank),
            declared_ranges(offsets, header.len() as int, bank_offset, bank.len() as int),
        ),
{
    let n = offsets.len() as int;
    lemma_headers_frame(image, source, offsets, header, n);
    let with_headers = headers_written(image, offsets, header, n);
    lemma_written_len(with_headers, bank_offset, bank);
    let packed = packed_image(image, offsets, header, bank_offset, bank);
    let sum = word_bytes(spec_checksum(packed) as u16);
    lemma_written_len(packed, 0x18E, sum);
    let out = inserted_image(image, offsets, header, bank_offset, bank);
    let mapped = offsets.map_values(|o: usize| (o, (o + header.len()) as usize));
    let tail = seq![(bank_offset as usize, (bank_offset + bank.len()) as usize), (0x18Eusize, 0x190usize)];
    let ranges = declared_ranges(offsets, header.len() as int, bank_offset, bank.len() as int);
    assert(ranges == mapped + tail);
    assert forall|i: int| 0 <= i < image.len() && #[trigger] image[i] != out[i] implies in_some_range(ranges, i) by {
        if 0x18E <= i < 0x190 {
            assert(ranges[n + 1] == tail[1]);
            assert(ranges[n + 1].0 <= i && i < ranges[n + 1].1);
        } else if bank_offset <= i < bank_offset + bank.len() {
            assert(ranges[n] == tail[0]);
            assert(ranges[n].0 <= i && i < ranges[n].1);
        } else {
            assert(out[i] == packed[i]);
            assert(packed[i] == with_headers[i]);
            assert(with_headers[i] != image[i]);
            let k = choose|k: int| 0 <= k < n && #[trigger] offsets[k] <= i < offsets[k] + header.len();
            assert(ranges[k] == mapped[k]);
            assert(ranges[k].0 <= i && i < ranges[k].1);
        }
    }
}

/// Insert a rebuilt pack: write `header` over the JP header at each of
/// `header_offsets` (the bytes there must be `source`'s), write `bank` over
/// `fill` bytes at `bank_offset` (ending within `bank_limit`), then write the
/// header checksum of the result over the old one. Yields the checksum.
pub fn insert_pack(
    source: &[u8],
    output: &mut [u8],
    header_offsets: &[usize],
    header: &[u8],
    bank_offset: usize,
    bank: &[u8],
    bank_limit: usize,
    fill: u8,
) -> (checksum: Result<u16, Error>)
    requires
        bank_offset + bank@.len() <= usize::MAX,
        forall|k: int| 0 <= k < header_offsets@.len() ==> #[trigger] header_offsets@[k] + header@.len() <= usize::MAX,
    ensures
        checksum is Ok <==> insertion_ok(
            old(output)@,
            source@,
            header_offsets@,
            header@,
            bank_offset as int,
            bank@,
            bank_limit as int,
            fill,
        ),
        checksum matches Ok(c) ==> {
            &&& final(output)@ == inserted_image(old(output)@, header_offsets@, header@, bank_offset as int, bank@)
            &&& c as int == spec_checksum(packed_image(old(output)@, header_offsets@, header@, bank_offset as int, bank@))
            &&& only_ranges_changed(
                old(output)@,
                final(output)@,
                declared_ranges(header_offsets@, header@.len() as int, bank_offset as int, bank@.len() as int),
            )
        },
{
    let ghost image = output@;
    let bank_end = bank_offset + bank.len();
    if bank_end > bank_limit || bank_end > output.len() {
        return Err("pack ends outside its expanded bank");
    }
    let mut baseline: Vec<u8> = Vec::with_capacity(output.len());
    let mut b: usize = 0;
    while b < output.len()
        invariant
            image == old(output)@,
            output@ == image,
            b <= output@.len(),
            baseline@ == output@.take(b as int),
        decreases output@.len() - b,
    {
        baseline.push(output[b]);
        b = b + 1;
    }
    assert(baseline@ =~= image);
    let mut k: usize = 0;
    while k < header_offsets.len()
        invariant
            image == old(output)@,
            baseline@ == image,
            bank_offset + bank@.len() <= bank_limit,
            bank_offset + bank@.len() <= image.len(),
            k <= header_offsets@.len(),
            headers_ok(image, source@, header_offsets@, header@, k as int),
            output@ == headers_written(image, header_offsets@, header@, k as int),
            output@.len() == image.len(),
            forall|j: int| 0 <= j < header_offsets@.len() ==> #[trigger] header_offsets@[j] + header@.len() <= usize::MAX,
        decreases header_offsets@.len() - k,
    {
        let offset = header_offsets[k];
        let expected = match source_range(source, offset, header.len()) {
            Ok(expected) => expected,
            Err(e) => {
                assert(!headers_ok(image, source@, header_offsets@, header@, header_offsets@.len() as int)) by {
                    assert(!header_write_ok(image, source@, header_offsets@, header@, k as int));
                }
                return Err(e);
            },
        };
        match apply_expected_write(output, offset, expected, header) {
            Ok(()) => {},
            Err(e) => {
                assert(!headers_ok(image, source@, header_offsets@, header@, header_offsets@.len() as int)) by {
                    assert(!header_write_ok(image, source@, header_offsets@, header@, k as int));
                }
                return Err(e);
            },
        }
        proof {
            assert(header_write_ok(image, source@, header_offsets@, header@, k as int));
            assert forall|j: int| 0 <= j < k + 1 implies #[trigger] header_write_ok(image, source@, header_offsets@, header@, j) by {
                if j < k {
                    assert(header_write_ok(image, source@, header_offsets@, header@, j));
                }
            }
        }
        k = k + 1;
    }
    let ghost with_headers = output@;
    let expected_bank: Vec<u8> = vec![fill; bank.len()];
    match apply_expected_write(output, bank_offset, expected_bank.as_slice(), bank) {
        Ok(()) => {},
        Err(e) => {
            assert(!insertion_ok(image, source@, header_offsets@, header@, bank_offset as int, bank@, bank_limit as int, fill)) by {
                if insertion_ok(image, source@, header_offsets@, header@, bank_offset as int, bank@, bank_limit as int, fill) {
                    assert(with_headers.subrange(bank_offset as int, bank_offset + bank@.len()) =~= expected_bank@);
                }
            }
            return Err(e);
        },
    }
    assert(output@ == packed_image(image, header_offsets@, header@, bank_offset as int, bank@));
    assert forall|i: int| bank_offset <= i < bank_offset + bank@.len() implies #[trigger] with_headers[i] == fill by {
        assert(with_headers.subrange(bank_offset as int, bank_offset + bank@.len())[i - bank_offset] == with_headers[i]);
        assert(expected_bank@[i - bank_offset] == fill);
    }
    assert(headers_ok(image, source@, header_offsets@, header@, header_offsets@.len() as int));
    let checksum = calculate_checksum(output);
    if baseline.len() < CHECKSUM_OFFSET + 2 {
        return Err("ROM image ends before its header checksum");
    }
    let sum_bytes = [(checksum / 256) as u8, (checksum % 256) as u8];
    assert(sum_bytes@ =~= word_bytes(checksum));
    let ghost packed = output@;
    match apply_expected_write(output, CHECKSUM_OFFSET, &baseline.as_slice()[CHECKSUM_OFFSET..CHECKSUM_OFFSET + 2], &sum_bytes) {
        Ok(()) => {},
        Err(e) => {
            assert(!(packed.subrange(0x18E, 0x190) == image.subrange(0x18E, 0x190)));
            return Err(e);
        },
    }
    assert(packed.subrange(0x18E, 0x190) == image.subrange(0x18E, 0x190)) by {
        assert(baseline@.subrange(0x18E, 0x190) == image.subrange(0x18E, 0x190));
    }
    assert(insertion_ok(image, source@, header_offsets@, header@, bank_offset as int, bank@, bank_limit as int, fill));
    proof {
        lemma_insertion_frame(image, source@, header_offsets@, header@, bank_offset as int, bank@, bank_limit as int, fill);
    }
    let mut ranges: Vec<(usize, usize)> = Vec::new();
    let mut r: usize = 0;
    while r < header_offsets.len()
        invariant
            r <= header_offsets@.len(),
            forall|j: int| 0 <= j < header_offsets@.len() ==> #[trigger] header_offsets@[j] + header@.len() <= usize::MAX,
            ranges@ == header_offsets@.take(r as int).map_values(|o: usize| (o, (o + header@.len()) as usize)),
        decreases header_offsets@.len() - r,
    {
        ranges.push((header_offsets[r], header_offsets[r] + header.len()));
        assert(header_offsets@.take(r + 1).map_values(|o: usize| (o, (o + header@.len()) as usize))
            =~= header_offsets@.take(r as int).map_values(|o: usize| (o, (o + header@.len()) as usize)).push(
            (header_offsets@[r as int], (header_offsets@[r as int] + header@.len()) as usize),
        ));
        r = r + 1;
    }
    ranges.push((bank_offset, bank_end));
    ranges.push((CHECKSUM_OFFSET, CHECKSUM_OFFSET + 2));
    assert(header_offsets@.take(header_offsets@.len() as int) =~= header_offsets@);
    assert(ranges@ =~= declared_ranges(header_offsets@, header@.len() as int, bank_offset as int, bank@.len() as int));
    validate_only_ranges_changed(baseline.as_slice(), output, ranges.as_slice())?;
    Ok(checksum)
}

/// One write of an apply step: the bytes it expects at `offset` and the
/// bytes it puts there.
pub struct ExpectedWrite {
    pub offset: usize,
    pub expected: Vec<u8>,
    pub replacement: Vec<u8>,
}

/// A write as plain values: offset, expected bytes, replacement bytes.
pub type WriteView = (usize, Seq<u8>, Seq<u8>);

pub open spec fn write_views(ws: Seq<ExpectedWrite>) -> Seq<WriteView> {
    ws.map_values(|w: ExpectedWrite| (w.offset, w.expected@, w.replacement@))
}

/// `image` after the first `n` writes.
pub open spec fn writes_applied(image: Seq<u8>, ws: Seq<WriteView>, n: int) -> Seq<u8>
    decreases n,
{
    if n <= 0 {
        image
    } else {
        written(writes_applied(image, ws, n - 1), ws[n - 1].0 as int, ws[n - 1].2)
    }
}

/// Write `k` finds the bytes it expects, in the image the earlier writes
/// left.
pub open spec fn write_ok(image: Seq<u8>, ws: Seq<WriteView>, k: int) -> bool {
    let w = ws[k];
    let o = w.0 as int;
    &&& w.1.len() == w.2.len()
    &&& o + w.1.len() <= image.len()
    &&& writes_applied(image, ws, k).subrange(o, o + w.1.len()) == w.1
}

/// Every write finds its expected bytes, and the header checksum slot is
/// left to the checksum.
pub open spec fn writes_ok(image: Seq<u8>, ws: Seq<WriteView>) -> bool {
    &&& forall|k: int| 0 <= k < ws.len() ==> #[trigger] write_ok(image, ws, k)
    &&& 0x190 <= image.len()
    &&& writes_applied(image, ws, ws.len() as int).subrange(0x18E, 0x190) == image.subrange(0x18E, 0x190)
}

/// The ranges of the writes, then the checksum.
pub open spec fn write_ranges(ws: Seq<WriteView>) -> Seq<(usize, usize)> {
    ws.map_values(|w: WriteView| (w.0, (w.0 + w.2.len()) as usize)).push((0x18Eusize, 0x190usize))
}

/// `image` with its header checksum written.
pub open spec fn checksummed(image: Seq<u8>) -> Seq<u8> {
    written(image, 0x18E, word_bytes(spec_checksum(image) as u16))
}

pub proof fn lemma_writes_frame(image: Seq<u8>, ws: Seq<WriteView>, n: int)
    requires
        0 <= n <= ws.len(),
        forall|k: int| 0 <= k < n ==> #[trigger] write_ok(image, ws, k),
    ensures
        writes_applied(image, ws, n).len() == image.len(),
        forall|i: int|
            0 <= i < image.len() && #[trigger] writes_applied(image, ws, n)[i] != image[i] ==> exists|k: int|
                0 <= k < n && #[trigger] ws[k].0 <= i < ws[k].0 + ws[k].2.len(),
    decreases n,
{
    if n > 0 {
        lemma_writes_frame(image, ws, n - 1);
        let prev = writes_applied(image, ws, n - 1);
        assert(write_ok(image, ws, n - 1));
        let w = ws[n - 1];
        lemma_written_len(prev, w.0 as int, w.2);
        assert forall|i: int|
            0 <= i < image.len() && #[trigger] writes_applied(image, ws, n)[i] != image[i] implies exists|k: int|
                0 <= k < n && #[trigger] ws[k].0 <= i < ws[k].0 + ws[k].2.len() by {
            if !(w.0 <= i < w.0 + w.2.len()) {
                assert(writes_applied(image, ws, n)[i] == prev[i]);
                let k = choose|k: int| 0 <= k < n - 1 && #[trigger] ws[k].0 <= i < ws[k].0 + ws[k].2.len();
                assert(0 <= k < n);
            }
        }
    }
}

/// The writes and the checksum change no byte outside their ranges.
pub proof fn lemma_writes_only_ranges(image: Seq<u8>, ws: Seq<WriteView>)
    requires
        writes_ok(image, ws),
        image.len() <= usize::MAX,
    ensures
        only_ranges_changed(image, checksummed(writes_applied(image, ws, ws.len() as int)), write_ranges(ws)),
{
    let n = ws.len() as int;
    lemma_writes_frame(image, ws, n);
    let applied = writes_applied(image, ws, n);
    lemma_written_len(applied, 0x18E, word_bytes(spec_checksum(applied) as u16));
    let out = checksummed(applied);
    let ranges = write_ranges(ws);
    assert forall|i: int| 0 <= i < image.len() && #[trigger] image[i] != out[i] implies crate::rom::in_some_range(ranges, i) by {
        if 0x18E <= i < 0x190 {
            assert(ranges[n].0 <= i && i < ranges[n].1);
        } else {
            assert(out[i] == applied[i]);
            let k = choose|k: int| 0 <= k < n && #[trigger] ws[k].0 <= i < ws[k].0 + ws[k].2.len();
            assert(write_ok(image, ws, k));
            assert(ranges[k] == (ws[k].0, (ws[k].0 + ws[k].2.len()) as usize));
            assert(ranges[k].0 <= i && i < ranges[k].1);
        }
    }
}

/// Make each write in turn, checking the bytes it replaces, then write the
/// header checksum; on any refusal the output is left as it was.
pub fn insert_writes(output: &mut Vec<u8>, ws: &Vec<ExpectedWrite>) -> (checksum: Result<u16, Error>)
    ensures
        checksum is Ok <==> writes_ok(old(output)@, write_views(ws@)),
        checksum is Err ==> final(output)@ == old(output)@,
        checksum matches Ok(c) ==> {
            let applied = writes_applied(old(output)@, write_views(ws@), ws@.len() as int);
            &&& c as int == spec_checksum(applied)
            &&& final(output)@ == checksummed(applied)
            &&& only_ranges_changed(old(output)@, final(output)@, write_ranges(write_views(ws@)))
        },
{
    let ghost image = output@;
    let ghost v = write_views(ws@);
    let mut work = copy_bytes(output.as_slice());
    let mut k: usize = 0;
    while k < ws.len()
        invariant
            image == old(output)@,
            output@ == image,
            k <= ws@.len(),
            v == write_views(ws@),
            forall|j: int| 0 <= j < k ==> #[trigger] write_ok(image, v, j),
            work@ == writes_applied(image, v, k as int),
            work@.len() == image.len(),
        decreases ws@.len() - k,
    {
        let w = &ws[k];
        match apply_expected_write(work.as_mut_slice(), w.offset, w.expected.as_slice(), w.replacement.as_slice()) {
            Ok(()) => {},
            Err(e) => {
                assert(v[k as int] == (w.offset, w.expected@, w.replacement@));
                assert(!write_ok(image, v, k as int));
                return Err(e);
            },
        }
        proof {
            assert(v[k as int] == (w.offset, w.expected@, w.replacement@));
            assert(write_ok(image, v, k as int));
            lemma_written_len(writes_applied(image, v, k as int), w.offset as int, w.replacement@);
        }
        k = k + 1;
    }
    if work.len() < CHECKSUM_OFFSET + 2 {
        return Err("ROM image ends before its header checksum");
    }
    let checksum = calculate_checksum(work.as_slice());
    let sum_bytes = [(checksum / 256) as u8, (checksum % 256) as u8];
    assert(sum_bytes@ =~= word_bytes(checksum));
    let ghost applied = work@;
    match apply_expected_write(work.as_mut_slice(), CHECKSUM_OFFSET, &output.as_slice()[CHECKSUM_OFFSET..CHECKSUM_OFFSET + 2], &sum_bytes) {
        Ok(()) => {},
        Err(e) => {
            return Err(e);
        },
    }
    assert(image.len() <= usize::MAX) by {
        assert(output@.len() == output.len());
    }
    proof {
        lemma_writes_only_ranges(image, v);
    }
    *output = work;
    Ok(checksum)
}

/// `len` erased bytes.
pub fn erased_bytes(len: usize) -> (bytes: Vec<u8>)
    ensures
        bytes@.len() == len,
        forall|i: int| 0 <= i < len ==> #[trigger] bytes@[i] == 0xFF,
{
    let mut bytes: Vec<u8> = Vec::with_capacity(len);
    let mut k: usize = 0;
    while k < len
        invariant
            k <= len,
            bytes@.len() == k,
            forall|i: int| 0 <= i < k ==> #[trigger] bytes@[i] == 0xFF,
        decreases len - k,
    {
        bytes.push(0xFF);
        k = k + 1;
    }
    bytes
}

/// A pack header written over the JP header `source` holds at `offset`.
pub open spec fn header_write(source: Seq<u8>, offset: usize, header: Seq<u8>) -> WriteView {
    (offset, source.subrange(offset as int, offset + header.len()), header)
}

/// A pack bank written over erased bytes at `offset`.
pub open spec fn bank_write(offset: usize, bank: Seq<u8>) -> WriteView {
    (offset, Seq::new(bank.len(), |i: int| 0xFFu8), bank)
}

/// The write of a pack header over the JP header at `offset`.
pub fn header_write_of(source: &[u8], offset: usize, header: &[u8]) -> (w: Result<ExpectedWrite, Error>)
    ensures
        w is Ok <==> offset + header@.len() <= source@.len(),
        w matches Ok(x) ==> (x.offset, x.expected@, x.replacement@) == header_write(source@, offset, header@),
{
    let expected = source_range(source, offset, header.len())?;
    Ok(ExpectedWrite { offset, expected: copy_bytes(expected), replacement: copy_bytes(header) })
}

/// The write of a pack bank over erased bytes at `offset`.
pub fn bank_write_of(offset: usize, bank: &[u8]) -> (w: ExpectedWrite)
    ensures
        (w.offset, w.expected@, w.replacement@) == bank_write(offset, bank@),
{
    let expected = erased_bytes(bank.len());
    assert(expected@ =~= Seq::new(bank@.len(), |i: int| 0xFFu8));
    ExpectedWrite { offset, expected, replacement: copy_bytes(bank) }
}

/// The write of `replacement` over `expected` at `offset`.
pub fn fixed_write_of(offset: usize, expected: &[u8], replacement: &[u8]) -> (w: ExpectedWrite)
    ensures
        (w.offset, w.expected@, w.replacement@) == (offset, expected@, replacement@),
{
    ExpectedWrite { offset, expected: copy_bytes(expected), replacement: copy_bytes(replacement) }
}

/// Pushing a write pushes its view.
pub proof fn lemma_write_views_push(ws: Seq<ExpectedWrite>, w: ExpectedWrite)
    ensures
        write_views(ws.push(w)) == write_views(ws).push((w.offset, w.expected@, w.replacement@)),
{
    assert(write_views(ws.push(w)) =~= write_views(ws).push((w.offset, w.expected@, w.replacement@)));
}

} // verus!
