//! The ELF signature and the test for it.

use vstd::prelude::*;

verus! {

/// Number of leading bytes that make up the signature.
pub const MAGIC_LEN: usize = 4;

/// The signature as a sequence: `0x7F`, then the letters `E`, `L`, `F`.
pub open spec fn elf_magic() -> Seq<u8> {
    seq![0x7fu8, 0x45u8, 0x4cu8, 0x46u8]
}

/// Whether `bytes` begins with the signature. Sequences shorter than the
/// signature never do; what follows the signature is not looked at.
pub open spec fn has_elf_magic(bytes: Seq<u8>) -> bool {
    &&& bytes.len() >= 4
    &&& bytes[0] == 0x7fu8
    &&& bytes[1] == 0x45u8
    &&& bytes[2] == 0x4cu8
    &&& bytes[3] == 0x46u8
}

/// Tells whether the leading bytes of a file mark it as an ELF binary.
///
/// `head` is what was read from the start of the file: all of it, or any
/// prefix of at least four bytes. Nothing beyond the signature is examined.
pub fn is_elf(head: &[u8]) -> (found: bool)
    ensures
        found == has_elf_magic(head@),
{
    head.len() >= MAGIC_LEN && head[0] == 0x7f && head[1] == 0x45 && head[2] == 0x4c && head[3]
        == 0x46
}

/// The signature test reads a prefix only: a sequence has the signature
/// exactly when its first four bytes are the signature itself.
pub proof fn lemma_magic_is_prefix(bytes: Seq<u8>)
    ensures
        has_elf_magic(bytes) <==> (bytes.len() >= 4 && bytes.subrange(0, 4) == elf_magic()),
{
    if bytes.len() >= 4 {
        let p = bytes.subrange(0, 4);
        assert(p.len() == 4);
        assert(p[0] == bytes[0] && p[1] == bytes[1] && p[2] == bytes[2] && p[3] == bytes[3]);
        if has_elf_magic(bytes) {
            assert(p =~= elf_magic());
        }
    }
}

/// What follows the signature does not matter, and neither does how much
/// of it there is.
pub proof fn lemma_magic_with_any_rest(rest: Seq<u8>)
    ensures
        has_elf_magic(elf_magic() + rest),
{
    let bytes = elf_magic() + rest;
    assert(bytes[0] == elf_magic()[0]);
    assert(bytes[1] == elf_magic()[1]);
    assert(bytes[2] == elf_magic()[2]);
    assert(bytes[3] == elf_magic()[3]);
}

/// Fewer than four bytes never hold the signature.
pub proof fn lemma_short_has_no_magic(bytes: Seq<u8>)
    requires
        bytes.len() < 4,
    ensures
        !has_elf_magic(bytes),
{
}

} // verus!
