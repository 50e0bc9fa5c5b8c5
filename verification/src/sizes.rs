//! The sizes that sections declare, held against the bytes that a module
//! takes.

use crate::file_reader::spec_uleb128;
use crate::sections::{
    lemma_one_section_advance, spec_empty_file, spec_known_section, spec_module,
    spec_one_section, spec_sections,
};
use crate::wasm_model::{FileModel, WasmError, WasmHeader};
use vstd::prelude::*;

verus! {

/// The size that a module records for the section of id `id`.
pub open spec fn spec_size_of(file: FileModel, id: u8) -> int {
    if id == 1 {
        file.type_section.section_size as int
    } else if id == 2 {
        file.import_section_header.section_size as int
    } else if id == 3 {
        file.function_section.section_size as int
    } else if id == 4 {
        file.table_section.section_size as int
    } else if id == 5 {
        file.memory_section.section_size as int
    } else if id == 6 {
        file.global_section.section_size as int
    } else if id == 7 {
        file.export_section.section_size as int
    } else if id == 9 {
        file.elem_section.section_size as int
    } else if id == 10 {
        file.code_section.section_size as int
    } else if id == 11 {
        file.data_section.section_size as int
    } else if id == 12 {
        file.data_count_section.section_size as int
    } else {
        0
    }
}

/// The sizes that a module records for its sections, together.
pub open spec fn spec_recorded(file: FileModel) -> int {
    spec_size_of(file, 1) + spec_size_of(file, 2) + spec_size_of(file, 3) + spec_size_of(file, 4)
        + spec_size_of(file, 5) + spec_size_of(file, 6) + spec_size_of(file, 7) + spec_size_of(
        file,
        9,
    ) + spec_size_of(file, 10) + spec_size_of(file, 11) + spec_size_of(file, 12)
}

/// A module without sections, with a header of zeros.
pub open spec fn spec_blank_file() -> FileModel {
    spec_empty_file(WasmHeader { magic_number: 0, version: 0 })
}

/// Whether the sections from `pos` on are laid out as they declare: each
/// has an id that is decoded and that none before it has, those in `seen`
/// counted; each takes as many bytes behind its size as the size says; and
/// they reach to the end of the bytes.
pub open spec fn spec_exact(bytes: Seq<u8>, pos: int, seen: Set<u8>) -> bool
    decreases
            (if pos < bytes.len() {
                bytes.len() - pos
            } else {
                0
            }),
{
    if pos < 0 || pos >= bytes.len() {
        true
    } else if !spec_known_section(bytes[pos]) || seen.contains(bytes[pos]) {
        false
    } else {
        match spec_uleb128(bytes, pos + 1) {
            Err(e) => false,
            Ok((size, p)) => match spec_one_section(
                bytes,
                pos + 1,
                bytes[pos],
                spec_blank_file(),
            ) {
                Err(e) => false,
                Ok((next, q)) => {
                    proof {
                        lemma_one_section_advance(
                            bytes,
                            pos + 1,
                            bytes[pos],
                            spec_blank_file(),
                        );
                    }
                    q - p == size && spec_exact(bytes, q, seen.insert(bytes[pos]))
                },
            },
        }
    }
}

/// The bytes that the headers of the sections from `pos` on take: for
/// each section its id and its size.
pub open spec fn spec_headers(bytes: Seq<u8>, pos: int) -> int
    decreases
            (if pos < bytes.len() {
                bytes.len() - pos
            } else {
                0
            }),
{
    if pos < 0 || pos >= bytes.len() || !spec_known_section(bytes[pos]) {
        0
    } else {
        match spec_uleb128(bytes, pos + 1) {
            Err(e) => 0,
            Ok((size, p)) => match spec_one_section(
                bytes,
                pos + 1,
                bytes[pos],
                spec_blank_file(),
            ) {
                Err(e) => 0,
                Ok((next, q)) => {
                    proof {
                        lemma_one_section_advance(
                            bytes,
                            pos + 1,
                            bytes[pos],
                            spec_blank_file(),
                        );
                    }
                    (p - pos) + spec_headers(bytes, q)
                },
            },
        }
    }
}

/// Where a section ends and what it declares does not hang on the module
/// it is read into, and it leaves the other sections of the module as
/// they are.
proof fn lemma_one_section(bytes: Seq<u8>, pos: int, id: u8, a: FileModel, b: FileModel)
    requires
        spec_known_section(id),
    ensures
        match spec_one_section(bytes, pos, id, a) {
            Err(e) => spec_one_section(bytes, pos, id, b) == Err::<(FileModel, int), _>(e),
            Ok((next, q)) => {
                &&& spec_one_section(bytes, pos, id, b) matches Ok((other, q2)) && q2 == q
                &&& spec_uleb128(bytes, pos) matches Ok((size, p)) && spec_size_of(next, id)
                    == size
                &&& forall|k: u8| k != id ==> spec_size_of(next, k) == spec_size_of(a, k)
            },
        },
{
}

proof fn lemma_declared_sizes(bytes: Seq<u8>, pos: int, file: FileModel, seen: Set<u8>)
    requires
        spec_exact(bytes, pos, seen),
        forall|k: u8| !seen.contains(k) ==> spec_size_of(file, k) == 0,
        0 <= pos,
    ensures
        spec_sections(bytes, pos, file) matches Ok((m, end)) ==> spec_headers(bytes, pos)
            + spec_recorded(m) == spec_recorded(file) + (end - pos),
    decreases
            (if pos < bytes.len() {
                bytes.len() - pos
            } else {
                0
            }),
{
    if pos >= bytes.len() {
    } else {
        let id = bytes[pos];
        let blank = spec_blank_file();
        lemma_one_section(bytes, pos + 1, id, file, blank);
        lemma_one_section_advance(bytes, pos + 1, id, file);
        match spec_one_section(bytes, pos + 1, id, file) {
            Err(e) => {},
            Ok((next, q)) => {
                lemma_declared_sizes(bytes, q, next, seen.insert(id));
            },
        }
    }
}

/// For a module whose sections are laid out as they declare, the sizes
/// that the module records and the bytes of the headers of the sections
/// make up the bytes that were read behind the first eight.
pub proof fn lemma_sizes_add_up(bytes: Seq<u8>)
    requires
        spec_exact(bytes, 8, Set::empty()),
    ensures
        spec_module(bytes) matches Ok((m, end)) ==> spec_headers(bytes, 8) + spec_recorded(m)
            == end - 8,
{
    match spec_module(bytes) {
        Err(e) => {},
        Ok((m, end)) => {
            let header = choose|h: WasmHeader|
                spec_sections(bytes, 8, spec_empty_file(h)) == Ok::<_, WasmError>((m, end));
            lemma_declared_sizes(bytes, 8, spec_empty_file(header), Set::empty());
        },
    }
}

} // verus!
