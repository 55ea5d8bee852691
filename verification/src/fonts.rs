//! Font files: recognising the sfnt signature of a TrueType or OpenType
//! font before handing it to the renderer.

use vstd::prelude::*;

verus! {

/// The name under which the embedded emoji font is registered.
pub const FONT_NAME: &'static str = "noto-emoji-full";

/// `bytes` starts with `prefix`.
pub open spec fn bytes_start_with(bytes: Seq<u8>, prefix: Seq<u8>) -> bool {
    prefix.len() <= bytes.len() && bytes.subrange(0, prefix.len() as int) == prefix
}

fn starts_with_bytes(bytes: &[u8], prefix: &[u8]) -> (r: bool)
    ensures
        r == bytes_start_with(bytes@, prefix@),
{
    if prefix.len() > bytes.len() {
        return false;
    }
    let mut i: usize = 0;
    while i < prefix.len()
        invariant
            i <= prefix.len() <= bytes.len(),
            forall|j: int| 0 <= j < i ==> bytes@[j] == prefix@[j],
        decreases prefix.len() - i,
    {
        if bytes[i] != prefix[i] {
            assert(bytes@.subrange(0, prefix.len() as int)[i as int] != prefix@[i as int]);
            return false;
        }
        i += 1;
    }
    assert(bytes@.subrange(0, prefix.len() as int) =~= prefix@);
    true
}

/// Whether `bytes` can be a font: it starts with a TrueType (`00 01 00 00`
/// or `true`) or an OpenType (`OTTO`) signature.
pub fn valid_sfnt(bytes: &[u8]) -> (r: bool)
    ensures
        r == (bytes_start_with(bytes@, seq![0u8, 1u8, 0u8, 0u8]) || bytes_start_with(
            bytes@,
            seq![79u8, 84u8, 84u8, 79u8],
        ) || bytes_start_with(bytes@, seq![116u8, 114u8, 117u8, 101u8])),
{
    let truetype: [u8; 4] = [0, 1, 0, 0];
    let opentype: [u8; 4] = [79, 84, 84, 79];
    let apple: [u8; 4] = [116, 114, 117, 101];
    assert(truetype@ =~= seq![0u8, 1u8, 0u8, 0u8]);
    assert(opentype@ =~= seq![79u8, 84u8, 84u8, 79u8]);
    assert(apple@ =~= seq![116u8, 114u8, 117u8, 101u8]);
    starts_with_bytes(bytes, &truetype) || starts_with_bytes(bytes, &opentype) || starts_with_bytes(
        bytes,
        &apple,
    )
}

} // verus!
