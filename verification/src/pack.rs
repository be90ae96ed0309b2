//! Decoded mode-1 transfers and their manifest declarations.

use vstd::prelude::*;
use crate::hex::{Error, parse_hex, parse_u16_hex, spec_parse_hex};
use crate::digest::{sha256_hex, sha256_hex_of};
use crate::text::str_eq;

verus! {

/// One mode-1 transfer as the ROM's decoder yields it: the header offset it
/// was read from, its VRAM destination and its decoded bytes.
pub struct DecodedPack {
    pub header_offset: usize,
    pub vram_destination: u16,
    pub data: Vec<u8>,
}

/// A transfer as a manifest declares it.
pub struct SourcePack {
    pub id: String,
    pub header_offset: String,
    pub vram_destination: String,
    pub decoded_bytes: usize,
    pub decoded_sha256: String,
}

/// The decoded transfer is the one the declaration pins down.
pub open spec fn pack_matches(decoded: DecodedPack, declaration: SourcePack) -> bool {
    &&& spec_parse_hex(declaration.header_offset@) == Some(decoded.header_offset as nat)
    &&& spec_parse_hex(declaration.vram_destination@) == Some(decoded.vram_destination as nat)
    &&& decoded.data@.len() == declaration.decoded_bytes
    &&& sha256_hex_of(decoded.data@) == declaration.decoded_sha256@
}

/// Accept a decoded JP transfer only when its offset, destination, length and
/// SHA-256 match the declaration; yield its bytes.
pub fn checked_source_pack(decoded: &DecodedPack, declaration: &SourcePack) -> (payload: Result<
    Vec<u8>,
    Error,
>)
    ensures
        payload is Ok <==> pack_matches(*decoded, *declaration),
        payload matches Ok(p) ==> p@ == decoded.data@,
{
    let header_offset = parse_hex(declaration.header_offset.as_str())?;
    if header_offset != decoded.header_offset {
        return Err("transfer was decoded from another header");
    }
    let expected_vram = parse_u16_hex(declaration.vram_destination.as_str())?;
    if decoded.vram_destination != expected_vram {
        return Err("transfer targets another VRAM address");
    }
    if decoded.data.len() != declaration.decoded_bytes {
        return Err("transfer decoded to another length");
    }
    let hash = sha256_hex(decoded.data.as_slice());
    if !str_eq(hash.as_str(), declaration.decoded_sha256.as_str()) {
        return Err("transfer SHA-256 mismatch");
    }
    Ok(decoded.data.clone())
}

/// Index of the first declaration named `id` at or after `from`
/// (`packs.len()` when there is none).
pub open spec fn first_id_index(packs: Seq<SourcePack>, id: Seq<char>, from: int) -> int
    decreases packs.len() - from,
{
    if from < 0 || from >= packs.len() {
        packs.len() as int
    } else if packs[from].id@ == id {
        from
    } else {
        first_id_index(packs, id, from + 1)
    }
}

proof fn lemma_first_id_index_bounds(packs: Seq<SourcePack>, id: Seq<char>, from: int)
    requires
        0 <= from <= packs.len(),
    ensures
        from <= first_id_index(packs, id, from) <= packs.len(),
        first_id_index(packs, id, from) < packs.len() ==> packs[first_id_index(packs, id, from)].id@ == id,
    decreases packs.len() - from,
{
    if from < packs.len() && packs[from].id@ != id {
        lemma_first_id_index_bounds(packs, id, from + 1);
    }
}

/// No declaration named `id` comes before the first one.
pub proof fn lemma_first_id_index_le(packs: Seq<SourcePack>, id: Seq<char>, from: int, j: int)
    requires
        0 <= from <= j < packs.len(),
        packs[j].id@ == id,
    ensures
        first_id_index(packs, id, from) <= j,
    decreases j - from,
{
    if packs[from].id@ != id {
        lemma_first_id_index_le(packs, id, from + 1, j);
    }
}

/// Position of the first declaration named `id`.
pub fn position_of_id(packs: &Vec<SourcePack>, id: &String) -> (position: Option<usize>)
    ensures
        position is Some <==> first_id_index(packs@, id@, 0) < packs@.len(),
        position matches Some(i) ==> i == first_id_index(packs@, id@, 0) && packs@[i as int].id@ == id@,
{
    proof {
        lemma_first_id_index_bounds(packs@, id@, 0);
    }
    let mut i: usize = 0;
    while i < packs.len()
        invariant
            i <= packs@.len(),
            first_id_index(packs@, id@, 0) == first_id_index(packs@, id@, i as int),
        decreases packs@.len() - i,
    {
        if packs[i].id == *id {
            return Some(i);
        }
        i = i + 1;
    }
    None
}

/// Check every declared transfer against its decoded counterpart, in order.
pub fn checked_source_packs(decoded: &Vec<DecodedPack>, declarations: &Vec<SourcePack>) -> (payloads:
    Result<Vec<Vec<u8>>, Error>)
    ensures
        payloads is Ok <==> (decoded@.len() == declarations@.len() && forall|i: int|
            0 <= i < decoded@.len() ==> pack_matches(#[trigger] decoded@[i], declarations@[i])),
        payloads matches Ok(p) ==> p@.len() == decoded@.len() && forall|i: int|
            0 <= i < p@.len() ==> #[trigger] p@[i]@ == decoded@[i].data@,
{
    if decoded.len() != declarations.len() {
        return Err("decoded transfers do not match the declared transfers");
    }
    let mut payloads: Vec<Vec<u8>> = Vec::new();
    let mut i: usize = 0;
    while i < decoded.len()
        invariant
            decoded@.len() == declarations@.len(),
            i <= decoded@.len(),
            payloads@.len() == i,
            forall|k: int| 0 <= k < i ==> pack_matches(#[trigger] decoded@[k], declarations@[k]),
            forall|k: int| 0 <= k < i ==> #[trigger] payloads@[k]@ == decoded@[k].data@,
        decreases decoded@.len() - i,
    {
        let payload = checked_source_pack(&decoded[i], &declarations[i])?;
        payloads.push(payload);
        i = i + 1;
    }
    Ok(payloads)
}

/// Index of the first declaration at or after `from` whose header offset is
/// `offset` (`packs.len()` when there is none).
pub open spec fn first_header_index(packs: Seq<SourcePack>, offset: nat, from: int) -> int
    decreases packs.len() - from,
{
    if from < 0 || from >= packs.len() {
        packs.len() as int
    } else if spec_parse_hex(packs[from].header_offset@) == Some(offset) {
        from
    } else {
        first_header_index(packs, offset, from + 1)
    }
}

/// The first declaration with a given header offset is in range and has it.
pub proof fn lemma_first_header_index_bounds(packs: Seq<SourcePack>, offset: nat, from: int)
    requires
        0 <= from <= packs.len(),
    ensures
        from <= first_header_index(packs, offset, from) <= packs.len(),
        first_header_index(packs, offset, from) < packs.len() ==> spec_parse_hex(
            packs[first_header_index(packs, offset, from)].header_offset@,
        ) == Some(offset),
    decreases packs.len() - from,
{
    if from < packs.len() && spec_parse_hex(packs[from].header_offset@) != Some(offset) {
        lemma_first_header_index_bounds(packs, offset, from + 1);
    }
}

/// Position of the first declaration whose header offset parses to
/// `header_offset`; one that does not parse is passed over.
pub fn position_of_header(packs: &Vec<SourcePack>, header_offset: usize) -> (position: Option<usize>)
    ensures
        position is Some <==> first_header_index(packs@, header_offset as nat, 0) < packs@.len(),
        position matches Some(i) ==> i == first_header_index(packs@, header_offset as nat, 0),
{
    proof {
        lemma_first_header_index_bounds(packs@, header_offset as nat, 0);
    }
    let mut i: usize = 0;
    while i < packs.len()
        invariant
            i <= packs@.len(),
            first_header_index(packs@, header_offset as nat, 0) == first_header_index(
                packs@,
                header_offset as nat,
                i as int,
            ),
        decreases packs@.len() - i,
    {
        let matches = match parse_hex(packs[i].header_offset.as_str()) {
            Ok(offset) => offset == header_offset,
            Err(_) => false,
        };
        if matches {
            return Some(i);
        }
        i = i + 1;
    }
    None
}

} // verus!
