//! The grammar of the sections of a module, and the readers that follow it.

use crate::file_reader::{
    index_of, lemma_expr_end, lemma_repeat_advance, lemma_repeat_done, lemma_repeat_step,
    lemma_uleb128_advance, spec_after, spec_bytes, spec_end, spec_expr, spec_index,
    spec_repeat, spec_u32, spec_u8, spec_uleb128, uleb128_reader, WasmDeserializeState,
};
use crate::instr_table::{instr_info, spec_instr};
use crate::wasm_model::{
    byte_to_reftype, lemma_segs_view_push, lemma_views_empty, lemma_views_push, num_to_import_type,
    segs_view, spec_import_type, spec_reftype, views, AcvtiveStruct, DataSegModel, ElemModeModel,
    ElemModel, ExportModel, ExprSeg, FileModel, FunctionModel, FunctionTypeModel, GlobalModel,
    ImportModel, WasmFile, WasmHeader,
    SectionModel, SegModel, WasmCodeSection, WasmDataCountSection, WasmDataSeg, WasmDataSection,
    WasmDataSegHeader, WasmElem, WasmElemMode, WasmElemSection, WasmError, WasmExportHeader,
    WasmExportSection, WasmExpr, WasmFunction, WasmFunctionSection, WasmFunctionType, WasmGlobal,
    WasmGlobalSection, WasmImportHeader, WasmImportSection, WasmMemorySection, WasmMemoryStruct,
    WasmRefType, WasmTable, WasmTableSection, WasmTypeAnnotation, WasmTypeSection,
};
use vstd::prelude::*;

verus! {

/// The value types that a run of bytes stands for.
pub open spec fn spec_annotate(raw: Seq<u8>) -> Seq<WasmTypeAnnotation> {
    raw.map_values(|t: u8| WasmTypeAnnotation { _type: t })
}

/// `n` value type bytes at `pos`.
pub open spec fn spec_annotations(bytes: Seq<u8>, pos: int, n: nat) -> Result<
    (Seq<WasmTypeAnnotation>, int),
    WasmError,
> {
    match spec_bytes(bytes, pos, n) {
        Err(e) => Err(e),
        Ok((raw, p)) => Ok((spec_annotate(raw), p)),
    }
}

/// A section made of a byte size, a count and the entries that were read.
pub open spec fn spec_section_of<E>(
    section_size: u64,
    count: u64,
    entries: Result<(Seq<E>, int), WasmError>,
) -> Result<(SectionModel<E>, int), WasmError> {
    match entries {
        Err(e) => Err(e),
        Ok((entries, end)) => Ok((SectionModel { section_size, count, entries }, end)),
    }
}

/// A section at `pos`: its byte size, its count, and that many entries,
/// each read by `elem`. The byte size is recorded and not held against
/// what the entries take.
pub open spec fn spec_section<E>(
    bytes: Seq<u8>,
    pos: int,
    elem: spec_fn(Seq<u8>, int) -> Result<(E, int), WasmError>,
) -> Result<(SectionModel<E>, int), WasmError> {
    match spec_uleb128(bytes, pos) {
        Err(e) => Err(e),
        Ok((section_size, p)) => match spec_uleb128(bytes, p) {
            Err(e) => Err(e),
            Ok((count, q)) => spec_section_of(
                section_size,
                count,
                spec_repeat(bytes, q, count as nat, elem),
            ),
        },
    }
}

/// `spec_u8` as a reader of elements.
pub open spec fn u8_reader() -> spec_fn(Seq<u8>, int) -> Result<(u8, int), WasmError> {
    |bytes: Seq<u8>, pos: int| spec_u8(bytes, pos)
}

/// A function type: the tag `0x60`, then the parameter types and the result
/// types, each a count and that many bytes.
pub open spec fn spec_function_type(
    bytes: Seq<u8>,
    pos: int,
) -> Result<(FunctionTypeModel, int), WasmError> {
    match spec_u8(bytes, pos) {
        Err(e) => Err(e),
        Ok((func, at1)) => {
            if func != 0x60 {
                Err(WasmError::InvalidTypeTag(func))
            } else {
                match spec_uleb128(bytes, at1) {
                    Err(e) => Err(e),
                    Ok((num_params, at2)) => {
                        match spec_annotations(bytes, at2, num_params as nat) {
                            Err(e) => Err(e),
                            Ok((params, at3)) => {
                                match spec_uleb128(bytes, at3) {
                                    Err(e) => Err(e),
                                    Ok((num_results, at4)) => {
                                        match spec_annotations(bytes, at4, num_results as nat) {
                                            Err(e) => Err(e),
                                            Ok((results, at5)) => {
                                                Ok(
                                                    (
                                                        FunctionTypeModel {
                                                            func,
                                                            num_params,
                                                            params,
                                                            num_results,
                                                            results,
                                                        },
                                                        at5,
                                                    ),
                                                )
                                            },
                                        }
                                    },
                                }
                            },
                        }
                    },
                }
            }
        },
    }
}

/// `spec_function_type` as a reader of elements.
pub open spec fn function_type_reader() -> spec_fn(Seq<u8>, int) -> Result<
    (FunctionTypeModel, int),
    WasmError,
> {
    |bytes: Seq<u8>, pos: int| spec_function_type(bytes, pos)
}

/// An import: the module name and the field name, each a length and that many
/// bytes, then the kind byte and the descriptor byte.
pub open spec fn spec_import(bytes: Seq<u8>, pos: int) -> Result<(ImportModel, int), WasmError> {
    match spec_uleb128(bytes, pos) {
        Err(e) => Err(e),
        Ok((mod_name_length, at1)) => {
            match spec_bytes(bytes, at1, mod_name_length as nat) {
                Err(e) => Err(e),
                Ok((import_module_name, at2)) => {
                    match spec_uleb128(bytes, at2) {
                        Err(e) => Err(e),
                        Ok((import_field_len, at3)) => {
                            match spec_bytes(bytes, at3, import_field_len as nat) {
                                Err(e) => Err(e),
                                Ok((import_field, at4)) => {
                                    match spec_u8(bytes, at4) {
                                        Err(e) => Err(e),
                                        Ok((kind, at5)) => {
                                            match spec_u8(bytes, at5) {
                                                Err(e) => Err(e),
                                                Ok((import_type, at6)) => {
                                                    Ok(
                                                        (
                                                            ImportModel {
                                                                mod_name_length,
                                                                import_module_name,
                                                                import_field_len,
                                                                import_field,
                                                                import_kind: spec_import_type(kind),
                                                                import_type,
                                                            },
                                                            at6,
                                                        ),
                                                    )
                                                },
                                            }
                                        },
                                    }
                                },
                            }
                        },
                    }
                },
            }
        },
    }
}

/// `spec_import` as a reader of elements.
pub open spec fn import_reader() -> spec_fn(Seq<u8>, int) -> Result<(ImportModel, int), WasmError> {
    |bytes: Seq<u8>, pos: int| spec_import(bytes, pos)
}

/// A table: the reference type byte, the flags byte, the initial size and the maximum.
pub open spec fn spec_table(bytes: Seq<u8>, pos: int) -> Result<(WasmTable, int), WasmError> {
    match spec_u8(bytes, pos) {
        Err(e) => Err(e),
        Ok((wasm_type, at1)) => {
            match spec_u8(bytes, at1) {
                Err(e) => Err(e),
                Ok((limits_flags, at2)) => {
                    match spec_uleb128(bytes, at2) {
                        Err(e) => Err(e),
                        Ok((limits_initial, at3)) => {
                            match spec_uleb128(bytes, at3) {
                                Err(e) => Err(e),
                                Ok((limits_max, at4)) => {
                                    Ok(
                                        (
                                            WasmTable {
                                                wasm_type,
                                                limits_flags,
                                                limits_initial,
                                                limits_max,
                                            },
                                            at4,
                                        ),
                                    )
                                },
                            }
                        },
                    }
                },
            }
        },
    }
}

/// `spec_table` as a reader of elements.
pub open spec fn table_reader() -> spec_fn(Seq<u8>, int) -> Result<(WasmTable, int), WasmError> {
    |bytes: Seq<u8>, pos: int| spec_table(bytes, pos)
}

/// A memory: the flags byte, the initial size and the maximum.
pub open spec fn spec_memory(
    bytes: Seq<u8>,
    pos: int,
) -> Result<(WasmMemoryStruct, int), WasmError> {
    match spec_u8(bytes, pos) {
        Err(e) => Err(e),
        Ok((limits_flags, at1)) => {
            match spec_uleb128(bytes, at1) {
                Err(e) => Err(e),
                Ok((limits_initial, at2)) => {
                    match spec_uleb128(bytes, at2) {
                        Err(e) => Err(e),
                        Ok((limits_max, at3)) => {
                            Ok((WasmMemoryStruct { limits_flags, limits_initial, limits_max }, at3))
                        },
                    }
                },
            }
        },
    }
}

/// `spec_memory` as a reader of elements.
pub open spec fn memory_reader() -> spec_fn(Seq<u8>, int) -> Result<
    (WasmMemoryStruct, int),
    WasmError,
> {
    |bytes: Seq<u8>, pos: int| spec_memory(bytes, pos)
}

/// A global: the type byte, the mutability byte and the initializer expression.
pub open spec fn spec_global(bytes: Seq<u8>, pos: int) -> Result<(GlobalModel, int), WasmError> {
    match spec_u8(bytes, pos) {
        Err(e) => Err(e),
        Ok((wasm_type, at1)) => {
            match spec_u8(bytes, at1) {
                Err(e) => Err(e),
                Ok((mutability, at2)) => {
                    match spec_expr(bytes, at2) {
                        Err(e) => Err(e),
                        Ok((expr, at3)) => {
                            Ok(
                                (
                                    GlobalModel {
                                        wasm_type: WasmTypeAnnotation { _type: wasm_type },
                                        mutability,
                                        expr,
                                    },
                                    at3,
                                ),
                            )
                        },
                    }
                },
            }
        },
    }
}

/// `spec_global` as a reader of elements.
pub open spec fn global_reader() -> spec_fn(Seq<u8>, int) -> Result<(GlobalModel, int), WasmError> {
    |bytes: Seq<u8>, pos: int| spec_global(bytes, pos)
}

/// An export: the name, a length and that many bytes, then the kind byte and the index byte.
pub open spec fn spec_export(bytes: Seq<u8>, pos: int) -> Result<(ExportModel, int), WasmError> {
    match spec_uleb128(bytes, pos) {
        Err(e) => Err(e),
        Ok((export_name_len, at1)) => {
            match spec_bytes(bytes, at1, export_name_len as nat) {
                Err(e) => Err(e),
                Ok((export_name, at2)) => {
                    match spec_u8(bytes, at2) {
                        Err(e) => Err(e),
                        Ok((export_kind, at3)) => {
                            match spec_u8(bytes, at3) {
                                Err(e) => Err(e),
                                Ok((export_signature_index, at4)) => {
                                    Ok(
                                        (
                                            ExportModel {
                                                export_name_len,
                                                export_name,
                                                export_kind,
                                                export_signature_index,
                                            },
                                            at4,
                                        ),
                                    )
                                },
                            }
                        },
                    }
                },
            }
        },
    }
}

/// `spec_export` as a reader of elements.
pub open spec fn export_reader() -> spec_fn(Seq<u8>, int) -> Result<(ExportModel, int), WasmError> {
    |bytes: Seq<u8>, pos: int| spec_export(bytes, pos)
}

/// A data segment: the flags byte, the offset expression, then a length and that many bytes.
pub open spec fn spec_data_seg(bytes: Seq<u8>, pos: int) -> Result<(DataSegModel, int), WasmError> {
    match spec_u8(bytes, pos) {
        Err(e) => Err(e),
        Ok((header_flags, at1)) => {
            match spec_expr(bytes, at1) {
                Err(e) => Err(e),
                Ok((expr, at2)) => {
                    match spec_uleb128(bytes, at2) {
                        Err(e) => Err(e),
                        Ok((data_size, at3)) => {
                            match spec_bytes(bytes, at3, data_size as nat) {
                                Err(e) => Err(e),
                                Ok((data, at4)) => {
                                    Ok((DataSegModel { header_flags, expr, data_size, data }, at4))
                                },
                            }
                        },
                    }
                },
            }
        },
    }
}

/// `spec_data_seg` as a reader of elements.
pub open spec fn data_seg_reader() -> spec_fn(Seq<u8>, int) -> Result<
    (DataSegModel, int),
    WasmError,
> {
    |bytes: Seq<u8>, pos: int| spec_data_seg(bytes, pos)
}

/// The initializer that stands for a run of function indices: for each
/// index, in order, the three segments `ref.func`, the index, `end`.
pub open spec fn spec_elem_expr(ys: Seq<u64>) -> Seq<SegModel>
    decreases ys.len(),
{
    if ys.len() == 0 {
        Seq::empty()
    } else {
        spec_elem_expr(ys.drop_last()) + seq![
            SegModel::Operation(spec_instr(0xd2)),
            SegModel::Func(spec_index(ys.last())),
            SegModel::Operation(spec_end()),
        ]
    }
}

/// A run of function indices: a count and that many numbers.
pub open spec fn spec_func_indices(bytes: Seq<u8>, pos: int) -> Result<(Seq<u64>, int), WasmError> {
    match spec_uleb128(bytes, pos) {
        Err(e) => Err(e),
        Ok((n, p)) => spec_repeat(bytes, p, n as nat, uleb128_reader()),
    }
}

/// An element segment with the indices `found`, of the reference type that
/// the byte `et` stands for.
pub open spec fn spec_elem_of(
    et: u8,
    mode: ElemModeModel,
    found: Result<(Seq<u64>, int), WasmError>,
) -> Result<(ElemModel, int), WasmError> {
    match found {
        Err(e) => Err(e),
        Ok((ys, end)) => match spec_reftype(et) {
            Err(e) => Err(e),
            Ok(t) => Ok((ElemModel { _type: t, init: spec_elem_expr(ys), mode }, end)),
        },
    }
}

/// An element segment. The flavor byte comes first. Flavor 0 is active on
/// table 0 and of type `funcref`: an offset expression, then the indices.
/// Flavor 1 is passive: a reference type byte, then the indices. Flavor 2
/// is active: a table index, an offset expression, a reference type byte,
/// then the indices. Flavor 3 is declarative: a reference type byte, then
/// the indices. No other flavor is decoded.
pub open spec fn spec_elem(bytes: Seq<u8>, pos: int) -> Result<(ElemModel, int), WasmError> {
    match spec_u8(bytes, pos) {
        Err(e) => Err(e),
        Ok((id, p)) => if id == 0 {
            match spec_expr(bytes, p) {
                Err(e) => Err(e),
                Ok((offset_expr, q)) => spec_elem_of(
                    0x70,
                    ElemModeModel::Active { table: 0, offset_expr },
                    spec_func_indices(bytes, q),
                ),
            }
        } else if id == 1 {
            match spec_u8(bytes, p) {
                Err(e) => Err(e),
                Ok((et, q)) => spec_elem_of(
                    et,
                    ElemModeModel::Passive,
                    spec_func_indices(bytes, q),
                ),
            }
        } else if id == 2 {
            match spec_uleb128(bytes, p) {
                Err(e) => Err(e),
                Ok((x, q)) => match spec_expr(bytes, q) {
                    Err(e) => Err(e),
                    Ok((offset_expr, r)) => match spec_u8(bytes, r) {
                        Err(e) => Err(e),
                        Ok((et, t)) => spec_elem_of(
                            et,
                            ElemModeModel::Active { table: spec_index(x), offset_expr },
                            spec_func_indices(bytes, t),
                        ),
                    },
                },
            }
        } else if id == 3 {
            match spec_u8(bytes, p) {
                Err(e) => Err(e),
                Ok((et, q)) => spec_elem_of(
                    et,
                    ElemModeModel::Declarative,
                    spec_func_indices(bytes, q),
                ),
            }
        } else {
            Err(WasmError::InvalidElementKind(id as u32))
        },
    }
}

/// `spec_elem` as a reader of elements.
pub open spec fn elem_reader() -> spec_fn(Seq<u8>, int) -> Result<(ElemModel, int), WasmError> {
    |bytes: Seq<u8>, pos: int| spec_elem(bytes, pos)
}

/// One run of locals: a count, then the type byte.
pub open spec fn spec_local_run(bytes: Seq<u8>, pos: int) -> Result<((u8, u64), int), WasmError> {
    match spec_uleb128(bytes, pos) {
        Err(e) => Err(e),
        Ok((count, p)) => match spec_u8(bytes, p) {
            Err(e) => Err(e),
            Ok((t, q)) => Ok(((t, count), q)),
        },
    }
}

/// `spec_local_run` as a reader of elements.
pub open spec fn local_run_reader() -> spec_fn(Seq<u8>, int) -> Result<
    ((u8, u64), int),
    WasmError,
> {
    |bytes: Seq<u8>, pos: int| spec_local_run(bytes, pos)
}

/// The locals of a function: a count of runs, then the runs.
pub open spec fn spec_locals(bytes: Seq<u8>, pos: int) -> Result<(Seq<(u8, u64)>, int), WasmError> {
    match spec_uleb128(bytes, pos) {
        Err(e) => Err(e),
        Ok((n, p)) => spec_repeat(bytes, p, n as nat, local_run_reader()),
    }
}

/// The bytes of a body as the symbols of a sentence.
pub open spec fn spec_symbols(raw: Seq<u8>) -> Seq<u64> {
    raw.map_values(|b: u8| b as u64)
}

/// A function of the code section: its declared size, its locals, and its
/// body, of which the bytes are kept too.
pub open spec fn spec_function(
    bytes: Seq<u8>,
    pos: int,
) -> Result<(FunctionModel, int), WasmError> {
    match spec_uleb128(bytes, pos) {
        Err(e) => Err(e),
        Ok((size, p)) => match spec_locals(bytes, p) {
            Err(e) => Err(e),
            Ok((local_types, q)) => match spec_expr(bytes, q) {
                Err(e) => Err(e),
                Ok((body, r)) => Ok(
                    (
                        FunctionModel {
                            size,
                            local_types,
                            body,
                            raw_body: spec_symbols(bytes.subrange(q, r)),
                        },
                        r,
                    ),
                ),
            },
        },
    }
}

/// `spec_function` as a reader of elements.
pub open spec fn function_reader() -> spec_fn(Seq<u8>, int) -> Result<
    (FunctionModel, int),
    WasmError,
> {
    |bytes: Seq<u8>, pos: int| spec_function(bytes, pos)
}

/// The data count section: its byte size and the count.
pub open spec fn spec_data_count(bytes: Seq<u8>, pos: int) -> Result<
    (WasmDataCountSection, int),
    WasmError,
> {
    match spec_uleb128(bytes, pos) {
        Err(e) => Err(e),
        Ok((section_size, p)) => match spec_uleb128(bytes, p) {
            Err(e) => Err(e),
            Ok((datacount, q)) => Ok((WasmDataCountSection { section_size, datacount }, q)),
        },
    }
}

/// A section ends after the position at which it starts, if each of its
/// entries ends where it starts or later.
pub proof fn lemma_section_advance<E>(
    bytes: Seq<u8>,
    pos: int,
    elem: spec_fn(Seq<u8>, int) -> Result<(E, int), WasmError>,
)
    requires
        forall|p: int| (#[trigger] elem(bytes, p)) matches Ok((v, q)) ==> p <= q,
    ensures
        spec_section(bytes, pos, elem) matches Ok((v, q)) ==> pos < q,
{
    broadcast use lemma_uleb128_advance;

    match spec_uleb128(bytes, pos) {
        Err(e) => {},
        Ok((section_size, p)) => match spec_uleb128(bytes, p) {
            Err(e) => {},
            Ok((count, q)) => {
                lemma_repeat_advance(bytes, q, count as nat, elem);
            },
        },
    }
}

/// No entry of a section ends before the position at which it starts.
pub proof fn lemma_entries_advance(bytes: Seq<u8>)
    ensures
        forall|p: int| (#[trigger] u8_reader()(bytes, p)) matches Ok((v, q)) ==> p <= q,
        forall|p: int| (#[trigger] function_type_reader()(bytes, p)) matches Ok((v, q)) ==> p <= q,
        forall|p: int| (#[trigger] import_reader()(bytes, p)) matches Ok((v, q)) ==> p <= q,
        forall|p: int| (#[trigger] table_reader()(bytes, p)) matches Ok((v, q)) ==> p <= q,
        forall|p: int| (#[trigger] memory_reader()(bytes, p)) matches Ok((v, q)) ==> p <= q,
        forall|p: int| (#[trigger] global_reader()(bytes, p)) matches Ok((v, q)) ==> p <= q,
        forall|p: int| (#[trigger] export_reader()(bytes, p)) matches Ok((v, q)) ==> p <= q,
        forall|p: int| (#[trigger] elem_reader()(bytes, p)) matches Ok((v, q)) ==> p <= q,
        forall|p: int| (#[trigger] function_reader()(bytes, p)) matches Ok((v, q)) ==> p <= q,
        forall|p: int| (#[trigger] data_seg_reader()(bytes, p)) matches Ok((v, q)) ==> p <= q,
{
    broadcast use lemma_uleb128_advance, lemma_expr_end;

    assert forall|p: int| (#[trigger] spec_func_indices(bytes, p)) matches Ok((v, q)) ==> p
        <= q by {
        match spec_uleb128(bytes, p) {
            Err(e) => {},
            Ok((n, q)) => {
                lemma_repeat_advance(bytes, q, n as nat, uleb128_reader());
            },
        }
    }
    assert forall|p: int| (#[trigger] spec_locals(bytes, p)) matches Ok((v, q)) ==> p <= q by {
        match spec_uleb128(bytes, p) {
            Err(e) => {},
            Ok((n, q)) => {
                lemma_repeat_advance(bytes, q, n as nat, local_run_reader());
            },
        }
    }
}

/// A section without entries.
pub open spec fn spec_empty_section<E>() -> SectionModel<E> {
    SectionModel { section_size: 0, count: 0, entries: Seq::empty() }
}

/// A module of which only the header was read: every section is empty.
pub open spec fn spec_empty_file(wasm_header: WasmHeader) -> FileModel {
    FileModel {
        wasm_header,
        type_section: spec_empty_section(),
        import_section_header: spec_empty_section(),
        function_section: spec_empty_section(),
        table_section: spec_empty_section(),
        memory_section: spec_empty_section(),
        global_section: spec_empty_section(),
        export_section: spec_empty_section(),
        elem_section: spec_empty_section(),
        code_section: spec_empty_section(),
        data_section: spec_empty_section(),
        data_count_section: WasmDataCountSection { section_size: 0, datacount: 0 },
    }
}

/// The ids of the sections that are decoded: 1 to 7 and 9 to 12.
pub open spec fn spec_known_section(id: u8) -> bool {
    1 <= id <= 7 || 9 <= id <= 12
}

/// The module `file` with the section of id `id`, read at `pos`, in the
/// place of the one it had.
pub open spec fn spec_one_section(bytes: Seq<u8>, pos: int, id: u8, file: FileModel) -> Result<
    (FileModel, int),
    WasmError,
> {
    if id == 1 {
        match spec_section(bytes, pos, function_type_reader()) {
            Err(e) => Err(e),
            Ok((section, end)) => Ok((FileModel { type_section: section, ..file }, end)),
        }
    } else if id == 2 {
        match spec_section(bytes, pos, import_reader()) {
            Err(e) => Err(e),
            Ok((section, end)) => Ok((FileModel { import_section_header: section, ..file }, end)),
        }
    } else if id == 3 {
        match spec_section(bytes, pos, u8_reader()) {
            Err(e) => Err(e),
            Ok((section, end)) => Ok((FileModel { function_section: section, ..file }, end)),
        }
    } else if id == 4 {
        match spec_section(bytes, pos, table_reader()) {
            Err(e) => Err(e),
            Ok((section, end)) => Ok((FileModel { table_section: section, ..file }, end)),
        }
    } else if id == 5 {
        match spec_section(bytes, pos, memory_reader()) {
            Err(e) => Err(e),
            Ok((section, end)) => Ok((FileModel { memory_section: section, ..file }, end)),
        }
    } else if id == 6 {
        match spec_section(bytes, pos, global_reader()) {
            Err(e) => Err(e),
            Ok((section, end)) => Ok((FileModel { global_section: section, ..file }, end)),
        }
    } else if id == 7 {
        match spec_section(bytes, pos, export_reader()) {
            Err(e) => Err(e),
            Ok((section, end)) => Ok((FileModel { export_section: section, ..file }, end)),
        }
    } else if id == 9 {
        match spec_section(bytes, pos, elem_reader()) {
            Err(e) => Err(e),
            Ok((section, end)) => Ok((FileModel { elem_section: section, ..file }, end)),
        }
    } else if id == 10 {
        match spec_section(bytes, pos, function_reader()) {
            Err(e) => Err(e),
            Ok((section, end)) => Ok((FileModel { code_section: section, ..file }, end)),
        }
    } else if id == 11 {
        match spec_section(bytes, pos, data_seg_reader()) {
            Err(e) => Err(e),
            Ok((section, end)) => Ok((FileModel { data_section: section, ..file }, end)),
        }
    } else {
        match spec_data_count(bytes, pos) {
            Err(e) => Err(e),
            Ok((section, end)) => Ok((FileModel { data_count_section: section, ..file }, end)),
        }
    }
}

/// A section ends after the position at which it starts.
pub proof fn lemma_one_section_advance(bytes: Seq<u8>, pos: int, id: u8, file: FileModel)
    ensures
        spec_one_section(bytes, pos, id, file) matches Ok((v, q)) ==> pos < q,
{
    broadcast use lemma_uleb128_advance;

    lemma_entries_advance(bytes);
    lemma_section_advance(bytes, pos, u8_reader());
    lemma_section_advance(bytes, pos, function_type_reader());
    lemma_section_advance(bytes, pos, import_reader());
    lemma_section_advance(bytes, pos, table_reader());
    lemma_section_advance(bytes, pos, memory_reader());
    lemma_section_advance(bytes, pos, global_reader());
    lemma_section_advance(bytes, pos, export_reader());
    lemma_section_advance(bytes, pos, elem_reader());
    lemma_section_advance(bytes, pos, function_reader());
    lemma_section_advance(bytes, pos, data_seg_reader());
}

/// The sections from `pos` on, read into `file`: one id byte and one
/// section after the other, until the bytes end or an id is met that is not
/// decoded. That id byte is read too. A section that comes twice is kept as
/// it came last. The result is the module and the position at which
/// decoding stopped.
pub open spec fn spec_sections(bytes: Seq<u8>, pos: int, file: FileModel) -> Result<
    (FileModel, int),
    WasmError,
>
    decreases
            (if pos < bytes.len() {
                bytes.len() - pos
            } else {
                0
            }),
{
    if pos < 0 || pos >= bytes.len() {
        Ok((file, pos))
    } else if !spec_known_section(bytes[pos]) {
        Ok((file, pos + 1))
    } else {
        match spec_one_section(bytes, pos + 1, bytes[pos], file) {
            Err(e) => Err(e),
            Ok((next, p)) => {
                proof {
                    lemma_one_section_advance(bytes, pos + 1, bytes[pos], file);
                }
                spec_sections(bytes, p, next)
            },
        }
    }
}

/// The magic number: the bytes `00 61 73 6D` as a number, least significant
/// byte first.
pub const WASM_MAGIC: u32 = 0x6d73_6100;

/// A module: the magic number and the version, four bytes each, then the
/// sections.
pub open spec fn spec_module(bytes: Seq<u8>) -> Result<(FileModel, int), WasmError> {
    match spec_u32(bytes, 0) {
        Err(e) => Err(e),
        Ok((magic_number, p)) => match spec_u32(bytes, p) {
            Err(e) => Err(e),
            Ok((version, q)) => if magic_number != WASM_MAGIC {
                Err(WasmError::InvalidMagic)
            } else {
                spec_sections(bytes, q, spec_empty_file(WasmHeader { magic_number, version }))
            },
        },
    }
}

/// A module without sections.
pub fn empty_file(wasm_header: WasmHeader) -> (r: WasmFile)
    ensures
        r@ == spec_empty_file(wasm_header),
{
    let r = WasmFile {
        wasm_header,
        type_section: WasmTypeSection {
            section_size: 0,
            num_types: 0,
            function_signatures: Vec::new(),
        },
        import_section_header: WasmImportSection {
            section_size: 0,
            num_imports: 0,
            imports: Vec::new(),
        },
        function_section: WasmFunctionSection {
            section_size: 0,
            num_functions: 0,
            function_signature_indexes: Vec::new(),
        },
        table_section: WasmTableSection { section_size: 0, num_tables: 0, tables: Vec::new() },
        memory_section: WasmMemorySection {
            section_size: 0,
            num_memories: 0,
            memories: Vec::new(),
        },
        global_section: WasmGlobalSection { section_size: 0, num_globals: 0, globals: Vec::new() },
        export_section: WasmExportSection { section_size: 0, num_exports: 0, exports: Vec::new() },
        elem_section: WasmElemSection { section_size: 0, num_elems: 0, elems: Vec::new() },
        code_section: WasmCodeSection { section_size: 0, num_functions: 0, functions: Vec::new() },
        data_section: WasmDataSection {
            section_size: 0,
            num_data_segs: 0,
            data_segs: Vec::new(),
        },
        data_count_section: WasmDataCountSection { section_size: 0, datacount: 0 },
    };
    proof {
        lemma_views_empty::<WasmFunctionType>();
        lemma_views_empty::<WasmImportHeader>();
        lemma_views_empty::<WasmGlobal>();
        lemma_views_empty::<WasmExportHeader>();
        lemma_views_empty::<WasmElem>();
        lemma_views_empty::<WasmFunction>();
        lemma_views_empty::<WasmDataSeg>();
    }
    r
}

/// Decodes a module from its bytes. Fails with the first error met; where
/// it succeeds, sections that the bytes do not hold are empty.
pub fn wasm_deserialize(buffer: &[u8]) -> (r: Result<WasmFile, WasmError>)
    ensures
        match r {
            Ok(file) => spec_module(buffer@) matches Ok((m, end)) && m == file@,
            Err(e) => spec_module(buffer@) == Err::<(FileModel, int), _>(e),
        },
{
    let mut state = WasmDeserializeState::new(buffer);
    let magic_number = state.read_u32()?;
    let version = state.read_u32()?;
    if magic_number != WASM_MAGIC {
        return Err(WasmError::InvalidMagic);
    }
    let mut file = empty_file(WasmHeader { magic_number, version });
    loop
        invariant
            state.wf(),
            state.bytes() == buffer@,
            spec_module(buffer@) == spec_sections(buffer@, state.position(), file@),
        decreases buffer@.len() - state.position(),
    {
        let section_type = match state.read_u8() {
            Ok(id) => id,
            Err(_) => {
                return Ok(file);
            },
        };
        match section_type {
            0x01 => {
                file.type_section = state.read_type_section()?;
            },
            0x02 => {
                file.import_section_header = state.read_import_section()?;
            },
            0x03 => {
                file.function_section = state.read_function_section()?;
            },
            0x04 => {
                file.table_section = state.read_table_section()?;
            },
            0x05 => {
                file.memory_section = state.read_memory_section()?;
            },
            0x06 => {
                file.global_section = state.read_global_section()?;
            },
            0x07 => {
                file.export_section = state.read_export_section()?;
            },
            0x09 => {
                file.elem_section = state.read_elem_section()?;
            },
            0x0a => {
                file.code_section = state.read_code_section()?;
            },
            0x0b => {
                file.data_section = state.read_data_section()?;
            },
            0x0c => {
                file.data_count_section = state.read_data_count_section()?;
            },
            _ => {
                return Ok(file);
            },
        }
    }
}

impl<'a> WasmDeserializeState<'a> {
    /// Reads `num_elements` value type bytes.
    pub fn read_annotations(&mut self, num_elements: u64) -> (r: Result<
        Vec<WasmTypeAnnotation>,
        WasmError,
    >)
        requires
            old(self).wf(),
        ensures
            final(self).continues(old(self)),
            match r {
                Ok(v) => spec_annotations(
                    old(self).bytes(),
                    old(self).position(),
                    num_elements as nat,
                ) == Ok::<_, WasmError>((v@, final(self).position())),
                Err(e) => spec_annotations(
                    old(self).bytes(),
                    old(self).position(),
                    num_elements as nat,
                ) == Err::<(Seq<WasmTypeAnnotation>, int), _>(e),
            },
    {
        let raw = self.read_vector(num_elements)?;
        let mut out: Vec<WasmTypeAnnotation> = Vec::new();
        let mut i: usize = 0;
        while i < raw.len()
            invariant
                i <= raw@.len(),
                out@ == spec_annotate(raw@.take(i as int)),
            decreases raw@.len() - i,
        {
            out.push(WasmTypeAnnotation { _type: raw[i] });
            assert(spec_annotate(raw@.take(i + 1)) =~= spec_annotate(raw@.take(i as int)).push(
                WasmTypeAnnotation { _type: raw@[i as int] },
            ));
            i = i + 1;
        }
        assert(raw@.take(i as int) =~= raw@);
        Ok(out)
    }

    /// Reads a function type: the tag `0x60`, then the parameter types and the
    /// result types, each a count and that many bytes.
    pub fn read_function_type(&mut self) -> (r: Result<WasmFunctionType, WasmError>)
        requires
            old(self).wf(),
        ensures
            final(self).continues(old(self)),
            match r {
                Ok(v) => spec_function_type(
                    old(self).bytes(),
                    old(self).position(),
                ) == Ok::<_, WasmError>(
                    (v@, final(self).position()),
                ),
                Err(e) => spec_function_type(old(self).bytes(), old(self).position()) == Err::<
                    (FunctionTypeModel, int),
                    _,
                >(e),
            },
    {
        let func = self.read_u8()?;
        if func != 0x60 {
            return Err(WasmError::InvalidTypeTag(func));
        }
        let num_params = self.read_dynamic_uint()?;
        let params = self.read_annotations(num_params)?;
        let num_results = self.read_dynamic_uint()?;
        let results = self.read_annotations(num_results)?;
        Ok(WasmFunctionType { func, num_params, params, num_results, results })
    }

    /// Reads an import: the module name and the field name, each a length and
    /// that many bytes, then the kind byte and the descriptor byte.
    pub fn read_import(&mut self) -> (r: Result<WasmImportHeader, WasmError>)
        requires
            old(self).wf(),
        ensures
            final(self).continues(old(self)),
            match r {
                Ok(v) => spec_import(old(self).bytes(), old(self).position()) == Ok::<_, WasmError>(
                    (v@, final(self).position()),
                ),
                Err(e) => spec_import(old(self).bytes(), old(self).position()) == Err::<
                    (ImportModel, int),
                    _,
                >(e),
            },
    {
        let mod_name_length = self.read_dynamic_uint()?;
        let import_module_name = self.read_vector(mod_name_length)?;
        let import_field_len = self.read_dynamic_uint()?;
        let import_field = self.read_vector(import_field_len)?;
        let kind = self.read_u8()?;
        let import_type = self.read_u8()?;
        Ok(
            WasmImportHeader {
                mod_name_length,
                import_module_name,
                import_field_len,
                import_field,
                import_kind: num_to_import_type(kind),
                import_type,
            },
        )
    }

    /// Reads a table: the reference type byte, the flags byte, the initial size and the maximum.
    pub fn read_table(&mut self) -> (r: Result<WasmTable, WasmError>)
        requires
            old(self).wf(),
        ensures
            final(self).continues(old(self)),
            match r {
                Ok(v) => spec_table(old(self).bytes(), old(self).position()) == Ok::<_, WasmError>(
                    (v, final(self).position()),
                ),
                Err(e) => spec_table(old(self).bytes(), old(self).position()) == Err::<
                    (WasmTable, int),
                    _,
                >(e),
            },
    {
        let wasm_type = self.read_u8()?;
        let limits_flags = self.read_u8()?;
        let limits_initial = self.read_dynamic_uint()?;
        let limits_max = self.read_dynamic_uint()?;
        Ok(WasmTable { wasm_type, limits_flags, limits_initial, limits_max })
    }

    /// Reads a memory: the flags byte, the initial size and the maximum.
    pub fn read_memory(&mut self) -> (r: Result<WasmMemoryStruct, WasmError>)
        requires
            old(self).wf(),
        ensures
            final(self).continues(old(self)),
            match r {
                Ok(v) => spec_memory(old(self).bytes(), old(self).position()) == Ok::<_, WasmError>(
                    (v, final(self).position()),
                ),
                Err(e) => spec_memory(old(self).bytes(), old(self).position()) == Err::<
                    (WasmMemoryStruct, int),
                    _,
                >(e),
            },
    {
        let limits_flags = self.read_u8()?;
        let limits_initial = self.read_dynamic_uint()?;
        let limits_max = self.read_dynamic_uint()?;
        Ok(WasmMemoryStruct { limits_flags, limits_initial, limits_max })
    }

    /// Reads a global: the type byte, the mutability byte and the initializer expression.
    pub fn read_global(&mut self) -> (r: Result<WasmGlobal, WasmError>)
        requires
            old(self).wf(),
        ensures
            final(self).continues(old(self)),
            match r {
                Ok(v) => spec_global(old(self).bytes(), old(self).position()) == Ok::<_, WasmError>(
                    (v@, final(self).position()),
                ),
                Err(e) => spec_global(old(self).bytes(), old(self).position()) == Err::<
                    (GlobalModel, int),
                    _,
                >(e),
            },
    {
        let wasm_type = self.read_u8()?;
        let mutability = self.read_u8()?;
        let expr = self.read_expr()?.0;
        Ok(WasmGlobal { wasm_type: WasmTypeAnnotation { _type: wasm_type }, mutability, expr })
    }

    /// Reads an export: the name, a length and that many bytes, then the kind
    /// byte and the index byte.
    pub fn read_export(&mut self) -> (r: Result<WasmExportHeader, WasmError>)
        requires
            old(self).wf(),
        ensures
            final(self).continues(old(self)),
            match r {
                Ok(v) => spec_export(old(self).bytes(), old(self).position()) == Ok::<_, WasmError>(
                    (v@, final(self).position()),
                ),
                Err(e) => spec_export(old(self).bytes(), old(self).position()) == Err::<
                    (ExportModel, int),
                    _,
                >(e),
            },
    {
        let export_name_len = self.read_dynamic_uint()?;
        let export_name = self.read_vector(export_name_len)?;
        let export_kind = self.read_u8()?;
        let export_signature_index = self.read_u8()?;
        Ok(WasmExportHeader { export_name_len, export_name, export_kind, export_signature_index })
    }

    /// Reads a data segment: the flags byte, the offset expression, then a
    /// length and that many bytes.
    pub fn read_data_seg(&mut self) -> (r: Result<WasmDataSeg, WasmError>)
        requires
            old(self).wf(),
        ensures
            final(self).continues(old(self)),
            match r {
                Ok(v) => spec_data_seg(
                    old(self).bytes(),
                    old(self).position(),
                ) == Ok::<_, WasmError>(
                    (v@, final(self).position()),
                ),
                Err(e) => spec_data_seg(old(self).bytes(), old(self).position()) == Err::<
                    (DataSegModel, int),
                    _,
                >(e),
            },
    {
        let header_flags = self.read_u8()?;
        let expr = self.read_expr()?.0;
        let data_size = self.read_dynamic_uint()?;
        let data = self.read_vector(data_size)?;
        Ok(WasmDataSeg { header: WasmDataSegHeader { header_flags, expr, data_size }, data })
    }

    /// Reads the type section: its byte size, the count of its entries, and the entries.
    pub fn read_type_section(&mut self) -> (r: Result<WasmTypeSection, WasmError>)
        requires
            old(self).wf(),
        ensures
            final(self).continues(old(self)),
            match r {
                Ok(v) => spec_section(
                    old(self).bytes(),
                    old(self).position(),
                    function_type_reader(),
                )
                    == Ok::<_, WasmError>((v@, final(self).position())),
                Err(e) => spec_section(
                    old(self).bytes(),
                    old(self).position(),
                    function_type_reader(),
                )
                    == Err::<(SectionModel<FunctionTypeModel>, int), _>(e),
            },
    {
        let section_size = self.read_dynamic_uint()?;
        let num_types = self.read_dynamic_uint()?;
        let ghost elem = function_type_reader();
        let ghost whole = spec_repeat(self.bytes(), self.position(), num_types as nat, elem);
        let mut function_signatures: Vec<WasmFunctionType> = Vec::new();
        proof {
            lemma_views_empty::<WasmFunctionType>();
            assert(Seq::<FunctionTypeModel>::empty() + whole->Ok_0.0 =~= whole->Ok_0.0);
        }
        let mut i: u64 = 0;
        while i < num_types
            invariant
                i <= num_types,
                self.continues(old(self)),
                elem == function_type_reader(),
                spec_section(old(self).bytes(), old(self).position(), elem) == spec_section_of(
                    section_size,
                    num_types,
                    whole,
                ),
                whole == spec_after(
                    views(function_signatures@),
                    spec_repeat(self.bytes(), self.position(), (num_types - i) as nat, elem),
                ),
            decreases num_types - i,
        {
            proof {
                lemma_repeat_step(
                    self.bytes(),
                    self.position(),
                    (num_types - i) as nat,
                    elem,
                    views(function_signatures@),
                );
            }
            match self.read_function_type() {
                Err(e) => {
                    return Err(e);
                },
                Ok(v) => {
                    proof {
                        lemma_views_push(function_signatures@, v);
                    }
                    function_signatures.push(v);
                },
            }
            i = i + 1;
        }
        proof {
            lemma_repeat_done(self.bytes(), self.position(), elem, views(function_signatures@));
        }
        Ok(WasmTypeSection { section_size, num_types, function_signatures })
    }

    /// Reads the import section: its byte size, the count of its entries, and the entries.
    pub fn read_import_section(&mut self) -> (r: Result<WasmImportSection, WasmError>)
        requires
            old(self).wf(),
        ensures
            final(self).continues(old(self)),
            match r {
                Ok(v) => spec_section(old(self).bytes(), old(self).position(), import_reader())
                    == Ok::<_, WasmError>((v@, final(self).position())),
                Err(e) => spec_section(old(self).bytes(), old(self).position(), import_reader())
                    == Err::<(SectionModel<ImportModel>, int), _>(e),
            },
    {
        let section_size = self.read_dynamic_uint()?;
        let num_imports = self.read_dynamic_uint()?;
        let ghost elem = import_reader();
        let ghost whole = spec_repeat(self.bytes(), self.position(), num_imports as nat, elem);
        let mut imports: Vec<WasmImportHeader> = Vec::new();
        proof {
            lemma_views_empty::<WasmImportHeader>();
            assert(Seq::<ImportModel>::empty() + whole->Ok_0.0 =~= whole->Ok_0.0);
        }
        let mut i: u64 = 0;
        while i < num_imports
            invariant
                i <= num_imports,
                self.continues(old(self)),
                elem == import_reader(),
                spec_section(old(self).bytes(), old(self).position(), elem) == spec_section_of(
                    section_size,
                    num_imports,
                    whole,
                ),
                whole == spec_after(
                    views(imports@),
                    spec_repeat(self.bytes(), self.position(), (num_imports - i) as nat, elem),
                ),
            decreases num_imports - i,
        {
            proof {
                lemma_repeat_step(
                    self.bytes(),
                    self.position(),
                    (num_imports - i) as nat,
                    elem,
                    views(imports@),
                );
            }
            match self.read_import() {
                Err(e) => {
                    return Err(e);
                },
                Ok(v) => {
                    proof {
                        lemma_views_push(imports@, v);
                    }
                    imports.push(v);
                },
            }
            i = i + 1;
        }
        proof {
            lemma_repeat_done(self.bytes(), self.position(), elem, views(imports@));
        }
        Ok(WasmImportSection { section_size, num_imports, imports })
    }

    /// Reads the function section, whose entries are one byte each: its byte
    /// size, the count of its entries, and the entries.
    pub fn read_function_section(&mut self) -> (r: Result<WasmFunctionSection, WasmError>)
        requires
            old(self).wf(),
        ensures
            final(self).continues(old(self)),
            match r {
                Ok(v) => spec_section(old(self).bytes(), old(self).position(), u8_reader())
                    == Ok::<_, WasmError>((v@, final(self).position())),
                Err(e) => spec_section(old(self).bytes(), old(self).position(), u8_reader())
                    == Err::<(SectionModel<u8>, int), _>(e),
            },
    {
        let section_size = self.read_dynamic_uint()?;
        let num_functions = self.read_dynamic_uint()?;
        let ghost elem = u8_reader();
        let ghost whole = spec_repeat(self.bytes(), self.position(), num_functions as nat, elem);
        let mut function_signature_indexes: Vec<u8> = Vec::new();
        proof {
            assert(Seq::<u8>::empty() + whole->Ok_0.0 =~= whole->Ok_0.0);
        }
        let mut i: u64 = 0;
        while i < num_functions
            invariant
                i <= num_functions,
                self.continues(old(self)),
                elem == u8_reader(),
                spec_section(old(self).bytes(), old(self).position(), elem) == spec_section_of(
                    section_size,
                    num_functions,
                    whole,
                ),
                whole == spec_after(
                    function_signature_indexes@,
                    spec_repeat(self.bytes(), self.position(), (num_functions - i) as nat, elem),
                ),
            decreases num_functions - i,
        {
            proof {
                lemma_repeat_step(
                    self.bytes(),
                    self.position(),
                    (num_functions - i) as nat,
                    elem,
                    function_signature_indexes@,
                );
            }
            match self.read_u8() {
                Err(e) => {
                    return Err(e);
                },
                Ok(v) => {
                    function_signature_indexes.push(v);
                },
            }
            i = i + 1;
        }
        proof {
            lemma_repeat_done(self.bytes(), self.position(), elem, function_signature_indexes@);
        }
        Ok(WasmFunctionSection { section_size, num_functions, function_signature_indexes })
    }

    /// Reads the table section: its byte size, the count of its entries, and the entries.
    pub fn read_table_section(&mut self) -> (r: Result<WasmTableSection, WasmError>)
        requires
            old(self).wf(),
        ensures
            final(self).continues(old(self)),
            match r {
                Ok(v) => spec_section(old(self).bytes(), old(self).position(), table_reader())
                    == Ok::<_, WasmError>((v@, final(self).position())),
                Err(e) => spec_section(old(self).bytes(), old(self).position(), table_reader())
                    == Err::<(SectionModel<WasmTable>, int), _>(e),
            },
    {
        let section_size = self.read_dynamic_uint()?;
        let num_tables = self.read_dynamic_uint()?;
        let ghost elem = table_reader();
        let ghost whole = spec_repeat(self.bytes(), self.position(), num_tables as nat, elem);
        let mut tables: Vec<WasmTable> = Vec::new();
        proof {
            assert(Seq::<WasmTable>::empty() + whole->Ok_0.0 =~= whole->Ok_0.0);
        }
        let mut i: u64 = 0;
        while i < num_tables
            invariant
                i <= num_tables,
                self.continues(old(self)),
                elem == table_reader(),
                spec_section(old(self).bytes(), old(self).position(), elem) == spec_section_of(
                    section_size,
                    num_tables,
                    whole,
                ),
                whole == spec_after(
                    tables@,
                    spec_repeat(self.bytes(), self.position(), (num_tables - i) as nat, elem),
                ),
            decreases num_tables - i,
        {
            proof {
                lemma_repeat_step(
                    self.bytes(),
                    self.position(),
                    (num_tables - i) as nat,
                    elem,
                    tables@,
                );
            }
            match self.read_table() {
                Err(e) => {
                    return Err(e);
                },
                Ok(v) => {
                    tables.push(v);
                },
            }
            i = i + 1;
        }
        proof {
            lemma_repeat_done(self.bytes(), self.position(), elem, tables@);
        }
        Ok(WasmTableSection { section_size, num_tables, tables })
    }

    /// Reads the memory section: its byte size, the count of its entries, and the entries.
    pub fn read_memory_section(&mut self) -> (r: Result<WasmMemorySection, WasmError>)
        requires
            old(self).wf(),
        ensures
            final(self).continues(old(self)),
            match r {
                Ok(v) => spec_section(old(self).bytes(), old(self).position(), memory_reader())
                    == Ok::<_, WasmError>((v@, final(self).position())),
                Err(e) => spec_section(old(self).bytes(), old(self).position(), memory_reader())
                    == Err::<(SectionModel<WasmMemoryStruct>, int), _>(e),
            },
    {
        let section_size = self.read_dynamic_uint()?;
        let num_memories = self.read_dynamic_uint()?;
        let ghost elem = memory_reader();
        let ghost whole = spec_repeat(self.bytes(), self.position(), num_memories as nat, elem);
        let mut memories: Vec<WasmMemoryStruct> = Vec::new();
        proof {
            assert(Seq::<WasmMemoryStruct>::empty() + whole->Ok_0.0 =~= whole->Ok_0.0);
        }
        let mut i: u64 = 0;
        while i < num_memories
            invariant
                i <= num_memories,
                self.continues(old(self)),
                elem == memory_reader(),
                spec_section(old(self).bytes(), old(self).position(), elem) == spec_section_of(
                    section_size,
                    num_memories,
                    whole,
                ),
                whole == spec_after(
                    memories@,
                    spec_repeat(self.bytes(), self.position(), (num_memories - i) as nat, elem),
                ),
            decreases num_memories - i,
        {
            proof {
                lemma_repeat_step(
                    self.bytes(),
                    self.position(),
                    (num_memories - i) as nat,
                    elem,
                    memories@,
                );
            }
            match self.read_memory() {
                Err(e) => {
                    return Err(e);
                },
                Ok(v) => {
                    memories.push(v);
                },
            }
            i = i + 1;
        }
        proof {
            lemma_repeat_done(self.bytes(), self.position(), elem, memories@);
        }
        Ok(WasmMemorySection { section_size, num_memories, memories })
    }

    /// Reads the global section: its byte size, the count of its entries, and the entries.
    pub fn read_global_section(&mut self) -> (r: Result<WasmGlobalSection, WasmError>)
        requires
            old(self).wf(),
        ensures
            final(self).continues(old(self)),
            match r {
                Ok(v) => spec_section(old(self).bytes(), old(self).position(), global_reader())
                    == Ok::<_, WasmError>((v@, final(self).position())),
                Err(e) => spec_section(old(self).bytes(), old(self).position(), global_reader())
                    == Err::<(SectionModel<GlobalModel>, int), _>(e),
            },
    {
        let section_size = self.read_dynamic_uint()?;
        let num_globals = self.read_dynamic_uint()?;
        let ghost elem = global_reader();
        let ghost whole = spec_repeat(self.bytes(), self.position(), num_globals as nat, elem);
        let mut globals: Vec<WasmGlobal> = Vec::new();
        proof {
            lemma_views_empty::<WasmGlobal>();
            assert(Seq::<GlobalModel>::empty() + whole->Ok_0.0 =~= whole->Ok_0.0);
        }
        let mut i: u64 = 0;
        while i < num_globals
            invariant
                i <= num_globals,
                self.continues(old(self)),
                elem == global_reader(),
                spec_section(old(self).bytes(), old(self).position(), elem) == spec_section_of(
                    section_size,
                    num_globals,
                    whole,
                ),
                whole == spec_after(
                    views(globals@),
                    spec_repeat(self.bytes(), self.position(), (num_globals - i) as nat, elem),
                ),
            decreases num_globals - i,
        {
            proof {
                lemma_repeat_step(
                    self.bytes(),
                    self.position(),
                    (num_globals - i) as nat,
                    elem,
                    views(globals@),
                );
            }
            match self.read_global() {
                Err(e) => {
                    return Err(e);
                },
                Ok(v) => {
                    proof {
                        lemma_views_push(globals@, v);
                    }
                    globals.push(v);
                },
            }
            i = i + 1;
        }
        proof {
            lemma_repeat_done(self.bytes(), self.position(), elem, views(globals@));
        }
        Ok(WasmGlobalSection { section_size, num_globals, globals })
    }

    /// Reads the export section: its byte size, the count of its entries, and the entries.
    pub fn read_export_section(&mut self) -> (r: Result<WasmExportSection, WasmError>)
        requires
            old(self).wf(),
        ensures
            final(self).continues(old(self)),
            match r {
                Ok(v) => spec_section(old(self).bytes(), old(self).position(), export_reader())
                    == Ok::<_, WasmError>((v@, final(self).position())),
                Err(e) => spec_section(old(self).bytes(), old(self).position(), export_reader())
                    == Err::<(SectionModel<ExportModel>, int), _>(e),
            },
    {
        let section_size = self.read_dynamic_uint()?;
        let num_exports = self.read_dynamic_uint()?;
        let ghost elem = export_reader();
        let ghost whole = spec_repeat(self.bytes(), self.position(), num_exports as nat, elem);
        let mut exports: Vec<WasmExportHeader> = Vec::new();
        proof {
            lemma_views_empty::<WasmExportHeader>();
            assert(Seq::<ExportModel>::empty() + whole->Ok_0.0 =~= whole->Ok_0.0);
        }
        let mut i: u64 = 0;
        while i < num_exports
            invariant
                i <= num_exports,
                self.continues(old(self)),
                elem == export_reader(),
                spec_section(old(self).bytes(), old(self).position(), elem) == spec_section_of(
                    section_size,
                    num_exports,
                    whole,
                ),
                whole == spec_after(
                    views(exports@),
                    spec_repeat(self.bytes(), self.position(), (num_exports - i) as nat, elem),
                ),
            decreases num_exports - i,
        {
            proof {
                lemma_repeat_step(
                    self.bytes(),
                    self.position(),
                    (num_exports - i) as nat,
                    elem,
                    views(exports@),
                );
            }
            match self.read_export() {
                Err(e) => {
                    return Err(e);
                },
                Ok(v) => {
                    proof {
                        lemma_views_push(exports@, v);
                    }
                    exports.push(v);
                },
            }
            i = i + 1;
        }
        proof {
            lemma_repeat_done(self.bytes(), self.position(), elem, views(exports@));
        }
        Ok(WasmExportSection { section_size, num_exports, exports })
    }

    /// Reads the data section: its byte size, the count of its entries, and the entries.
    pub fn read_data_section(&mut self) -> (r: Result<WasmDataSection, WasmError>)
        requires
            old(self).wf(),
        ensures
            final(self).continues(old(self)),
            match r {
                Ok(v) => spec_section(old(self).bytes(), old(self).position(), data_seg_reader())
                    == Ok::<_, WasmError>((v@, final(self).position())),
                Err(e) => spec_section(old(self).bytes(), old(self).position(), data_seg_reader())
                    == Err::<(SectionModel<DataSegModel>, int), _>(e),
            },
    {
        let section_size = self.read_dynamic_uint()?;
        let num_data_segs = self.read_dynamic_uint()?;
        let ghost elem = data_seg_reader();
        let ghost whole = spec_repeat(self.bytes(), self.position(), num_data_segs as nat, elem);
        let mut data_segs: Vec<WasmDataSeg> = Vec::new();
        proof {
            lemma_views_empty::<WasmDataSeg>();
            assert(Seq::<DataSegModel>::empty() + whole->Ok_0.0 =~= whole->Ok_0.0);
        }
        let mut i: u64 = 0;
        while i < num_data_segs
            invariant
                i <= num_data_segs,
                self.continues(old(self)),
                elem == data_seg_reader(),
                spec_section(old(self).bytes(), old(self).position(), elem) == spec_section_of(
                    section_size,
                    num_data_segs,
                    whole,
                ),
                whole == spec_after(
                    views(data_segs@),
                    spec_repeat(self.bytes(), self.position(), (num_data_segs - i) as nat, elem),
                ),
            decreases num_data_segs - i,
        {
            proof {
                lemma_repeat_step(
                    self.bytes(),
                    self.position(),
                    (num_data_segs - i) as nat,
                    elem,
                    views(data_segs@),
                );
            }
            match self.read_data_seg() {
                Err(e) => {
                    return Err(e);
                },
                Ok(v) => {
                    proof {
                        lemma_views_push(data_segs@, v);
                    }
                    data_segs.push(v);
                },
            }
            i = i + 1;
        }
        proof {
            lemma_repeat_done(self.bytes(), self.position(), elem, views(data_segs@));
        }
        Ok(WasmDataSection { section_size, num_data_segs, data_segs })
    }


    /// Reads a run of function indices.
    fn read_func_indices(&mut self) -> (r: Result<Vec<u64>, WasmError>)
        requires
            old(self).wf(),
        ensures
            final(self).continues(old(self)),
            match r {
                Ok(v) => spec_func_indices(old(self).bytes(), old(self).position()) == Ok::<
                    _,
                    WasmError,
                >((v@, final(self).position())),
                Err(e) => spec_func_indices(old(self).bytes(), old(self).position()) == Err::<
                    (Seq<u64>, int),
                    _,
                >(e),
            },
    {
        let y_size = self.read_dynamic_uint()?;
        self.read_vector_dynamic(y_size)
    }

    /// The initializer that stands for a run of function indices.
    pub fn create_elem_expr(ys: &Vec<u64>) -> (r: WasmExpr)
        ensures
            r@ == spec_elem_expr(ys@),
    {
        let mut out: Vec<ExprSeg> = Vec::new();
        let mut i: usize = 0;
        assert(segs_view(out@) =~= spec_elem_expr(ys@.take(0)));
        while i < ys.len()
            invariant
                i <= ys@.len(),
                segs_view(out@) == spec_elem_expr(ys@.take(i as int)),
            decreases ys@.len() - i,
        {
            let ghost before = out@;
            let a = ExprSeg::Operation(instr_info(0xd2));
            let b = ExprSeg::Func(index_of(ys[i]));
            let c = ExprSeg::Operation(instr_info(0x0b));
            proof {
                lemma_segs_view_push(before, a);
                lemma_segs_view_push(before.push(a), b);
                lemma_segs_view_push(before.push(a).push(b), c);
                assert(ys@.take(i + 1).drop_last() =~= ys@.take(i as int));
                assert(segs_view(before).push(a@).push(b@).push(c@) =~= segs_view(before) + seq![
                    a@,
                    b@,
                    c@,
                ]);
            }
            out.push(a);
            out.push(b);
            out.push(c);
            i = i + 1;
        }
        assert(ys@.take(i as int) =~= ys@);
        WasmExpr { expr_string: out }
    }

    /// Reads one element segment.
    pub fn read_elem(&mut self) -> (r: Result<WasmElem, WasmError>)
        requires
            old(self).wf(),
        ensures
            final(self).continues(old(self)),
            match r {
                Ok(v) => spec_elem(old(self).bytes(), old(self).position()) == Ok::<_, WasmError>(
                    (v@, final(self).position()),
                ),
                Err(e) => spec_elem(old(self).bytes(), old(self).position()) == Err::<
                    (ElemModel, int),
                    _,
                >(e),
            },
    {
        let id = self.read_u8()?;
        match id {
            0 => {
                let e = self.read_expr()?.0;
                let ys = self.read_func_indices()?;
                Ok(
                    WasmElem {
                        mode: WasmElemMode::Active(AcvtiveStruct { table: 0, offset_expr: e }),
                        _type: WasmRefType::FuncRef,
                        init: Self::create_elem_expr(&ys),
                    },
                )
            },
            1 => {
                let et = self.read_u8()?;
                let ys = self.read_func_indices()?;
                Ok(
                    WasmElem {
                        mode: WasmElemMode::Passive,
                        _type: byte_to_reftype(et)?,
                        init: Self::create_elem_expr(&ys),
                    },
                )
            },
            2 => {
                let x = self.read_dynamic_uint()?;
                let e = self.read_expr()?.0;
                let et = self.read_u8()?;
                let ys = self.read_func_indices()?;
                Ok(
                    WasmElem {
                        mode: WasmElemMode::Active(
                            AcvtiveStruct { table: index_of(x), offset_expr: e },
                        ),
                        _type: byte_to_reftype(et)?,
                        init: Self::create_elem_expr(&ys),
                    },
                )
            },
            3 => {
                let et = self.read_u8()?;
                let ys = self.read_func_indices()?;
                Ok(
                    WasmElem {
                        mode: WasmElemMode::Declarative,
                        _type: byte_to_reftype(et)?,
                        init: Self::create_elem_expr(&ys),
                    },
                )
            },
            _ => Err(WasmError::InvalidElementKind(id as u32)),
        }
    }

    /// Reads one run of locals.
    fn read_local_run(&mut self) -> (r: Result<(u8, u64), WasmError>)
        requires
            old(self).wf(),
        ensures
            final(self).continues(old(self)),
            match r {
                Ok(v) => spec_local_run(old(self).bytes(), old(self).position()) == Ok::<
                    _,
                    WasmError,
                >((v, final(self).position())),
                Err(e) => spec_local_run(old(self).bytes(), old(self).position()) == Err::<
                    ((u8, u64), int),
                    _,
                >(e),
            },
    {
        let num_type = self.read_dynamic_uint()?;
        let _type = self.read_u8()?;
        Ok((_type, num_type))
    }

    /// Reads the locals of a function as runs of a type byte and a count.
    pub fn read_locals(&mut self) -> (r: Result<Vec<(u8, u64)>, WasmError>)
        requires
            old(self).wf(),
        ensures
            final(self).continues(old(self)),
            match r {
                Ok(v) => spec_locals(old(self).bytes(), old(self).position()) == Ok::<_, WasmError>(
                    (v@, final(self).position()),
                ),
                Err(e) => spec_locals(old(self).bytes(), old(self).position()) == Err::<
                    (Seq<(u8, u64)>, int),
                    _,
                >(e),
            },
    {
        let num_decs = self.read_dynamic_uint()?;
        let ghost elem = local_run_reader();
        let ghost whole = spec_repeat(self.bytes(), self.position(), num_decs as nat, elem);
        let mut local_types: Vec<(u8, u64)> = Vec::new();
        proof {
            assert(Seq::<(u8, u64)>::empty() + whole->Ok_0.0 =~= whole->Ok_0.0);
        }
        let mut i: u64 = 0;
        while i < num_decs
            invariant
                i <= num_decs,
                self.continues(old(self)),
                elem == local_run_reader(),
                spec_locals(old(self).bytes(), old(self).position()) == whole,
                whole == spec_after(
                    local_types@,
                    spec_repeat(self.bytes(), self.position(), (num_decs - i) as nat, elem),
                ),
            decreases num_decs - i,
        {
            proof {
                lemma_repeat_step(
                    self.bytes(),
                    self.position(),
                    (num_decs - i) as nat,
                    elem,
                    local_types@,
                );
            }
            match self.read_local_run() {
                Err(e) => {
                    return Err(e);
                },
                Ok(v) => {
                    local_types.push(v);
                },
            }
            i = i + 1;
        }
        proof {
            lemma_repeat_done(self.bytes(), self.position(), elem, local_types@);
        }
        Ok(local_types)
    }

    /// Reads one function of the code section.
    pub fn read_function(&mut self) -> (r: Result<WasmFunction, WasmError>)
        requires
            old(self).wf(),
        ensures
            final(self).continues(old(self)),
            match r {
                Ok(v) => spec_function(old(self).bytes(), old(self).position()) == Ok::<
                    _,
                    WasmError,
                >((v@, final(self).position())),
                Err(e) => spec_function(old(self).bytes(), old(self).position()) == Err::<
                    (FunctionModel, int),
                    _,
                >(e),
            },
    {
        let size = self.read_dynamic_uint()?;
        let local_types = self.read_locals()?;
        let body = self.read_expr()?;
        let raw = body.1;
        let mut raw_body: Vec<u64> = Vec::new();
        let mut i: usize = 0;
        while i < raw.len()
            invariant
                i <= raw@.len(),
                raw_body@ == spec_symbols(raw@.take(i as int)),
            decreases raw@.len() - i,
        {
            raw_body.push(raw[i] as u64);
            assert(spec_symbols(raw@.take(i + 1)) =~= spec_symbols(raw@.take(i as int)).push(
                raw@[i as int] as u64,
            ));
            i = i + 1;
        }
        assert(raw@.take(i as int) =~= raw@);
        Ok(WasmFunction { size, local_types, body: body.0, raw_body })
    }

    /// Reads the data count section.
    pub fn read_data_count_section(&mut self) -> (r: Result<WasmDataCountSection, WasmError>)
        requires
            old(self).wf(),
        ensures
            final(self).continues(old(self)),
            match r {
                Ok(v) => spec_data_count(old(self).bytes(), old(self).position()) == Ok::<
                    _,
                    WasmError,
                >((v, final(self).position())),
                Err(e) => spec_data_count(old(self).bytes(), old(self).position()) == Err::<
                    (WasmDataCountSection, int),
                    _,
                >(e),
            },
    {
        let section_size = self.read_dynamic_uint()?;
        let datacount = self.read_dynamic_uint()?;
        Ok(WasmDataCountSection { section_size, datacount })
    }

    /// Reads the element section: its byte size, the count of its entries, and the entries.
    pub fn read_elem_section(&mut self) -> (r: Result<WasmElemSection, WasmError>)
        requires
            old(self).wf(),
        ensures
            final(self).continues(old(self)),
            match r {
                Ok(v) => spec_section(old(self).bytes(), old(self).position(), elem_reader())
                    == Ok::<_, WasmError>((v@, final(self).position())),
                Err(e) => spec_section(old(self).bytes(), old(self).position(), elem_reader())
                    == Err::<(SectionModel<ElemModel>, int), _>(e),
            },
    {
        let section_size = self.read_dynamic_uint()?;
        let num_elems = self.read_dynamic_uint()?;
        let ghost elem = elem_reader();
        let ghost whole = spec_repeat(self.bytes(), self.position(), num_elems as nat, elem);
        let mut elems: Vec<WasmElem> = Vec::new();
        proof {
            lemma_views_empty::<WasmElem>();
            assert(Seq::<ElemModel>::empty() + whole->Ok_0.0 =~= whole->Ok_0.0);
        }
        let mut i: u64 = 0;
        while i < num_elems
            invariant
                i <= num_elems,
                self.continues(old(self)),
                elem == elem_reader(),
                spec_section(old(self).bytes(), old(self).position(), elem) == spec_section_of(
                    section_size,
                    num_elems,
                    whole,
                ),
                whole == spec_after(
                    views(elems@),
                    spec_repeat(self.bytes(), self.position(), (num_elems - i) as nat, elem),
                ),
            decreases num_elems - i,
        {
            proof {
                lemma_repeat_step(
                    self.bytes(),
                    self.position(),
                    (num_elems - i) as nat,
                    elem,
                    views(elems@),
                );
            }
            match self.read_elem() {
                Err(e) => {
                    return Err(e);
                },
                Ok(v) => {
                    proof {
                        lemma_views_push(elems@, v);
                    }
                    elems.push(v);
                },
            }
            i = i + 1;
        }
        proof {
            lemma_repeat_done(self.bytes(), self.position(), elem, views(elems@));
        }
        Ok(WasmElemSection { section_size, num_elems, elems })
    }

    /// Reads the code section: its byte size, the count of its entries, and the entries.
    pub fn read_code_section(&mut self) -> (r: Result<WasmCodeSection, WasmError>)
        requires
            old(self).wf(),
        ensures
            final(self).continues(old(self)),
            match r {
                Ok(v) => spec_section(old(self).bytes(), old(self).position(), function_reader())
                    == Ok::<_, WasmError>((v@, final(self).position())),
                Err(e) => spec_section(old(self).bytes(), old(self).position(), function_reader())
                    == Err::<(SectionModel<FunctionModel>, int), _>(e),
            },
    {
        let section_size = self.read_dynamic_uint()?;
        let num_functions = self.read_dynamic_uint()?;
        let ghost elem = function_reader();
        let ghost whole = spec_repeat(self.bytes(), self.position(), num_functions as nat, elem);
        let mut functions: Vec<WasmFunction> = Vec::new();
        proof {
            lemma_views_empty::<WasmFunction>();
            assert(Seq::<FunctionModel>::empty() + whole->Ok_0.0 =~= whole->Ok_0.0);
        }
        let mut i: u64 = 0;
        while i < num_functions
            invariant
                i <= num_functions,
                self.continues(old(self)),
                elem == function_reader(),
                spec_section(old(self).bytes(), old(self).position(), elem) == spec_section_of(
                    section_size,
                    num_functions,
                    whole,
                ),
                whole == spec_after(
                    views(functions@),
                    spec_repeat(self.bytes(), self.position(), (num_functions - i) as nat, elem),
                ),
            decreases num_functions - i,
        {
            proof {
                lemma_repeat_step(
                    self.bytes(),
                    self.position(),
                    (num_functions - i) as nat,
                    elem,
                    views(functions@),
                );
            }
            match self.read_function() {
                Err(e) => {
                    return Err(e);
                },
                Ok(v) => {
                    proof {
                        lemma_views_push(functions@, v);
                    }
                    functions.push(v);
                },
            }
            i = i + 1;
        }
        proof {
            lemma_repeat_done(self.bytes(), self.position(), elem, views(functions@));
        }
        Ok(WasmCodeSection { section_size, num_functions, functions })
    }
}

} // verus!
