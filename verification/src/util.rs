//! Small self-contained checks used around the downloader.

use vstd::prelude::*;
use crate::text::has_prefix;

verus! {

/// The four magic bytes that open every ELF executable.
pub open spec fn elf_magic() -> Seq<u8> {
    seq![0x7fu8, 0x45u8, 0x4cu8, 0x46u8]
}

/// Whether the four bytes are the ELF magic number.
pub fn is_elf(first_byes: &[u8; 4]) -> (r: bool)
    ensures
        r == (first_byes@ == elf_magic()),
{
    let r = first_byes[0] == 0x7f && first_byes[1] == 0x45 && first_byes[2] == 0x4c
        && first_byes[3] == 0x46;
    proof {
        if r {
            assert(first_byes@ =~= elf_magic());
        } else {
            assert(first_byes@ != elf_magic());
        }
    }
    r
}

/// Whether the string looks like a web link: it starts with an HTTP scheme.
pub fn is_link(e: &String) -> (r: bool)
    ensures
        r == (has_prefix(e@, "https://"@) || has_prefix(e@, "http://"@)),
{
    crate::text::str_starts_with(e.as_str(), "https://")
        || crate::text::str_starts_with(e.as_str(), "http://")
}

} // verus!
