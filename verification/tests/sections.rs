use wasm_decomp::file_reader::WasmDeserializeState;
use wasm_decomp::sections::wasm_deserialize;
use wasm_decomp::wasm_model::{
    ExprSeg, WasmElemMode, WasmError, WasmFile, WasmImportType, WasmRefType,
};

fn module(sections: &[u8]) -> Vec<u8> {
    let mut bytes = vec![0x00, 0x61, 0x73, 0x6D, 0x01, 0x00, 0x00, 0x00];
    bytes.extend_from_slice(sections);
    bytes
}

fn decode(sections: &[u8]) -> Result<WasmFile, WasmError> {
    wasm_deserialize(&module(sections))
}

fn names(segs: &[ExprSeg]) -> Vec<String> {
    segs.iter()
        .map(|seg| match seg {
            ExprSeg::Operation(info) => info.name.to_string(),
            ExprSeg::Func(index) => format!("{}", index),
            ExprSeg::Instr(layout) => format!("{:?}", names(layout)),
            ExprSeg::Int(value) => format!("{}", value),
            _ => "?".to_string(),
        })
        .collect()
}

#[test]
fn import_section() {
    let file =
        decode(&[0x02, 0x0B, 0x01, 0x03, 0x65, 0x6E, 0x76, 0x03, 0x6D, 0x65, 0x6D, 0x02, 0x07])
            .unwrap();
    assert_eq!(file.import_section_header.section_size, 11);
    assert_eq!(file.import_section_header.num_imports, 1);
    let import = &file.import_section_header.imports[0];
    assert_eq!(import.mod_name_length, 3);
    assert_eq!(import.import_module_name, b"env".to_vec());
    assert_eq!(import.import_field_len, 3);
    assert_eq!(import.import_field, b"mem".to_vec());
    assert_eq!(import.import_kind, WasmImportType::Mem);
    assert_eq!(import.import_type, 7);
    assert!(file.get_import_sig(import).is_none());
}

#[test]
fn function_table_and_memory_sections() {
    let file = decode(&[
        0x03, 0x03, 0x02, 0x00, 0x01, 0x04, 0x05, 0x01, 0x70, 0x01, 0x80, 0x01, 0x10, 0x05, 0x04,
        0x01, 0x00, 0x11, 0x00,
    ])
    .unwrap();
    assert_eq!(file.function_section.num_functions, 2);
    assert_eq!(file.function_section.function_signature_indexes, vec![0, 1]);
    assert_eq!(file.table_section.num_tables, 1);
    let table = &file.table_section.tables[0];
    assert_eq!(
        (table.wasm_type, table.limits_flags, table.limits_initial, table.limits_max),
        (0x70, 1, 128, 16)
    );
    let memory = &file.memory_section.memories[0];
    assert_eq!((memory.limits_flags, memory.limits_initial, memory.limits_max), (0, 17, 0));
}

#[test]
fn signatures_of_functions() {
    let file =
        decode(&[0x01, 0x08, 0x02, 0x60, 0x00, 0x00, 0x60, 0x01, 0x7E, 0x00, 0x03, 0x03, 0x02, 0x01, 0x05])
            .unwrap();
    assert_eq!(file.get_func_sig(0).unwrap().params[0]._type, 0x7E);
    // the second function names a type that is not there
    assert!(file.get_func_sig(1).is_none());
    assert!(file.get_func_sig(2).is_none());
}

#[test]
fn export_section() {
    let file = decode(&[0x07, 0x08, 0x01, 0x04, 0x6D, 0x61, 0x69, 0x6E, 0x00, 0x03]).unwrap();
    let export = &file.export_section.exports[0];
    assert_eq!(export.export_name_len, 4);
    assert_eq!(export.export_name, b"main".to_vec());
    assert_eq!(export.export_kind, 0);
    assert_eq!(export.export_signature_index, 3);
}

#[test]
fn element_segments_of_each_flavor() {
    let file = decode(&[
        0x09, 0x19, 0x04, // four segments
        0x00, 0x41, 0x05, 0x0B, 0x02, 0x07, 0x08, // active on table 0 at 5: 7, 8
        0x01, 0x6F, 0x00, // passive externref without indices
        0x02, 0x03, 0x41, 0x00, 0x0B, 0x70, 0x01, 0x09, // active on table 3: 9
        0x03, 0x70, 0x01, 0x80, 0x01, // declarative: 128
    ])
    .unwrap();
    assert_eq!(file.elem_section.num_elems, 4);
    let elems = &file.elem_section.elems;

    assert_eq!(elems[0]._type, WasmRefType::FuncRef);
    match &elems[0].mode {
        WasmElemMode::Active(active) => {
            assert_eq!(active.table, 0);
            assert_eq!(names(&active.offset_expr.expr_string), vec!["[\"i32.const\", \"5\"]", "end"]);
        }
        other => panic!("not active: {:?}", other),
    }
    assert_eq!(
        names(&elems[0].init.expr_string),
        vec!["ref.func", "7", "end", "ref.func", "8", "end"]
    );

    assert_eq!(elems[1]._type, WasmRefType::ExternRef);
    assert!(matches!(elems[1].mode, WasmElemMode::Passive));
    assert!(elems[1].init.expr_string.is_empty());

    assert!(matches!(&elems[2].mode, WasmElemMode::Active(active) if active.table == 3));
    assert_eq!(names(&elems[2].init.expr_string), vec!["ref.func", "9", "end"]);

    assert!(matches!(elems[3].mode, WasmElemMode::Declarative));
    assert_eq!(names(&elems[3].init.expr_string), vec!["ref.func", "128", "end"]);
}

#[test]
fn element_segments_that_are_refused() {
    for flavor in [4u8, 5, 6, 7, 8, 0xFF] {
        assert_eq!(
            decode(&[0x09, 0x02, 0x01, flavor]).unwrap_err(),
            WasmError::InvalidElementKind(flavor as u32)
        );
    }
    assert_eq!(
        decode(&[0x09, 0x04, 0x01, 0x01, 0x7F, 0x00]).unwrap_err(),
        WasmError::InvalidReftype(0x7F)
    );
    // the indices are read before the type is looked at
    assert_eq!(decode(&[0x09, 0x04, 0x01, 0x03, 0x7F, 0x01]).unwrap_err(), WasmError::UnexpectedEof);
    assert_eq!(decode(&[0x09, 0x02, 0x01]).unwrap_err(), WasmError::UnexpectedEof);
}

#[test]
fn code_section() {
    let file = decode(&[
        0x0A, 0x0C, 0x01, // one function
        0x0A, 0x02, 0x03, 0x7F, 0x01, 0x7C, // size 10; locals: three i32, one f64
        0x20, 0x00, 0x1A, 0x0B, // local.get 0; drop; end
    ])
    .unwrap();
    assert_eq!(file.code_section.section_size, 12);
    assert_eq!(file.code_section.num_functions, 1);
    let function = &file.code_section.functions[0];
    assert_eq!(function.size, 10);
    assert_eq!(function.local_types, vec![(0x7F, 3), (0x7C, 1)]);
    assert_eq!(function.raw_body, vec![0x20, 0x00, 0x1A, 0x0B]);
    assert_eq!(
        names(&function.body.expr_string),
        vec!["[\"local.get\", \"?\"]", "[\"drop\"]", "end"]
    );
}

#[test]
fn locals_alone() {
    let bytes = [0x02, 0x81, 0x01, 0x7E, 0x00, 0x7F, 0xAA];
    let mut reader = WasmDeserializeState::new(&bytes);
    assert_eq!(reader.read_locals().unwrap(), vec![(0x7E, 129), (0x7F, 0)]);
    assert_eq!(reader.read_u8().unwrap(), 0xAA);
    let mut reader = WasmDeserializeState::new(&bytes[..3]);
    assert_eq!(reader.read_locals().unwrap_err(), WasmError::UnexpectedEof);
}

#[test]
fn data_and_data_count_sections() {
    let file = decode(&[
        0x0C, 0x01, 0x02, // data count 2
        0x0B, 0x0B, 0x02, // two segments
        0x00, 0x41, 0x10, 0x0B, 0x02, 0xDE, 0xAD, // at 16: DE AD
        0x00, 0x0B, 0x00, // an empty offset expression and no bytes
    ])
    .unwrap();
    assert_eq!(file.data_count_section.section_size, 1);
    assert_eq!(file.data_count_section.datacount, 2);
    assert_eq!(file.data_section.num_data_segs, 2);
    let first = &file.data_section.data_segs[0];
    assert_eq!(first.header.header_flags, 0);
    assert_eq!(first.header.data_size, 2);
    assert_eq!(first.data, vec![0xDE, 0xAD]);
    assert_eq!(names(&first.header.expr.expr_string), vec!["[\"i32.const\", \"16\"]", "end"]);
    let second = &file.data_section.data_segs[1];
    assert_eq!(names(&second.header.expr.expr_string), vec!["end"]);
    assert!(second.data.is_empty());
}

#[test]
fn an_unknown_section_ends_decoding() {
    // a type section, then the ids 0 and 8, which are not decoded
    for unknown in [0x00u8, 0x08, 0x0D, 0xFF] {
        let file = decode(&[0x01, 0x04, 0x01, 0x60, 0x00, 0x00, unknown, 0x03, 0x02, 0x01, 0x00])
            .unwrap();
        assert_eq!(file.type_section.num_types, 1);
        assert_eq!(file.function_section.num_functions, 0);
    }
}

#[test]
fn a_section_that_comes_twice_is_kept_as_it_came_last() {
    let file = decode(&[0x03, 0x02, 0x01, 0x05, 0x03, 0x03, 0x02, 0x06, 0x07]).unwrap();
    assert_eq!(file.function_section.section_size, 3);
    assert_eq!(file.function_section.function_signature_indexes, vec![6, 7]);
}

#[test]
fn the_declared_size_is_recorded_and_not_held_against_the_entries() {
    // a type section that declares no bytes and has one entry
    let file = decode(&[0x01, 0x00, 0x01, 0x60, 0x00, 0x00]).unwrap();
    assert_eq!(file.type_section.section_size, 0);
    assert_eq!(file.type_section.num_types, 1);
}

#[test]
fn sections_that_end_too_early() {
    assert_eq!(decode(&[0x01]).unwrap_err(), WasmError::UnexpectedEof);
    assert_eq!(decode(&[0x01, 0x05]).unwrap_err(), WasmError::UnexpectedEof);
    assert_eq!(decode(&[0x01, 0x05, 0x02, 0x60, 0x00, 0x00]).unwrap_err(), WasmError::UnexpectedEof);
    assert_eq!(decode(&[0x02, 0x05, 0x01, 0x09, 0x65]).unwrap_err(), WasmError::UnexpectedEof);
    assert_eq!(decode(&[0x06, 0x04, 0x01, 0x7F, 0x00, 0x41]).unwrap_err(), WasmError::UnexpectedEof);
    assert_eq!(decode(&[0x06, 0x04, 0x01, 0x7F, 0x00, 0xF0, 0x0B]).unwrap_err(), WasmError::UnknownOpcode(0xF0));
    assert_eq!(decode(&[0x0A, 0x03, 0x01, 0x01]).unwrap_err(), WasmError::UnexpectedEof);
    assert_eq!(decode(&[0x0C, 0x01]).unwrap_err(), WasmError::UnexpectedEof);
}

#[test]
fn version_is_read_least_significant_byte_first() {
    let file = wasm_deserialize(&[0x00, 0x61, 0x73, 0x6D, 0x02, 0x01, 0x00, 0x00]).unwrap();
    assert_eq!(file.wasm_header.version, 0x0102);
    // the version is read before the magic number is looked at
    assert_eq!(
        wasm_deserialize(&[0x01, 0x61, 0x73, 0x6D, 0x01]).unwrap_err(),
        WasmError::UnexpectedEof
    );
}

#[test]
fn declared_sizes_and_headers_add_up_to_the_bytes_read() {
    // a type section of 4 bytes, a function section of 2, a code section of 4,
    // each behind its id and its size
    let mut sections = vec![0x01, 0x04, 0x01, 0x60, 0x00, 0x00];
    sections.extend_from_slice(&[0x03, 0x02, 0x01, 0x00]);
    sections.extend_from_slice(&[0x0A, 0x04, 0x01, 0x02, 0x00, 0x0B]);
    let file = decode(&sections).unwrap();
    let declared = file.type_section.section_size
        + file.function_section.section_size
        + file.code_section.section_size;
    assert_eq!(declared, 10);
    let headers: u64 = 3 * 2;
    assert_eq!(declared + headers, sections.len() as u64);
}
