use wasm_decomp::text::{from_chars, push_decimal, push_text, to_chars};
use wasm_decomp::wasm_model::{
    byte_to_reftype, calc_dyn_size, num_to_import_type, type_values, Prim, WasmError,
    WasmImportType, WasmRefType, WasmTypeAnnotation,
};
use wasm_decomp::wat_emitter::{indent, type_to_str, vec_to_string};

#[test]
fn type_names() {
    let name = |t: u8| type_to_str(WasmTypeAnnotation { _type: t });
    assert_eq!(name(0x7C), "f64");
    assert_eq!(name(0x7D), "f32");
    assert_eq!(name(0x7E), "i64");
    assert_eq!(name(0x7F), "i32");
    assert_eq!(name(0x70), "funcref");
    assert_eq!(name(0x6F), "");
    assert_eq!(name(0x00), "");
}

#[test]
fn bytes_as_text() {
    assert_eq!(vec_to_string(vec![]), "");
    assert_eq!(vec_to_string(vec![0x65, 0x6E, 0x76]), "env");
    // each byte is one character, whatever it is
    assert_eq!(vec_to_string(vec![0xE9, 0x41]), "\u{e9}A");
}

#[test]
fn indentation() {
    assert_eq!(indent("a\nb\n".to_string(), 1), "  a\n  b\n");
    assert_eq!(indent("x".to_string(), 2), "    x");
    assert_eq!(indent("".to_string(), 1), "");
    assert_eq!(indent("ab".to_string(), 0), "ab");
    assert_eq!(indent("a\n\nb".to_string(), 1), "  a\n  \n  b");
    assert_eq!(indent("(func)\n".to_string(), 3), "      (func)\n");
    // a text that ends in blanks of its own loses as many as one step
    assert_eq!(indent("a  ".to_string(), 1), "  a");
}

#[test]
fn primitive_tags() {
    assert_eq!(type_values(Prim::Void), (0, "void".to_string()));
    assert_eq!(type_values(Prim::I32), (1, "i32".to_string()));
    assert_eq!(type_values(Prim::I64), (2, "i64".to_string()));
    assert_eq!(type_values(Prim::F32), (3, "f32".to_string()));
    assert_eq!(type_values(Prim::F64), (4, "f64".to_string()));
    assert_eq!(type_values(Prim::Local), (5, "local".to_string()));
    assert_eq!(type_values(Prim::Global), (6, "global".to_string()));
    assert_eq!(type_values(Prim::Func), (7, "funcidx".to_string()));
    assert_eq!(type_values(Prim::Generic), (8, "generic".to_string()));
}

#[test]
fn import_kinds() {
    assert_eq!(num_to_import_type(0), WasmImportType::Func);
    assert_eq!(num_to_import_type(1), WasmImportType::Table);
    assert_eq!(num_to_import_type(2), WasmImportType::Mem);
    assert_eq!(num_to_import_type(3), WasmImportType::Global);
    assert_eq!(num_to_import_type(4), WasmImportType::Global);
    assert_eq!(num_to_import_type(255), WasmImportType::Global);
}

#[test]
fn reference_types() {
    assert_eq!(byte_to_reftype(0x70), Ok(WasmRefType::FuncRef));
    assert_eq!(byte_to_reftype(0x6F), Ok(WasmRefType::ExternRef));
    assert_eq!(byte_to_reftype(0x7F), Err(WasmError::InvalidReftype(0x7F)));
}

#[test]
fn reckoned_sizes() {
    assert_eq!(calc_dyn_size(0), 1);
    assert_eq!(calc_dyn_size(1), 2);
    assert_eq!(calc_dyn_size(127), 2);
    assert_eq!(calc_dyn_size(128), 3);
    assert_eq!(calc_dyn_size(-1), 2);
    assert_eq!(calc_dyn_size(-128), 3);
    assert_eq!(calc_dyn_size(16383), 3);
    assert_eq!(calc_dyn_size(16384), 4);
    assert_eq!(calc_dyn_size(i64::MAX), 10);
    assert_eq!(calc_dyn_size(i64::MIN), 10);
}

#[test]
fn characters_and_back() {
    assert_eq!(to_chars("a\u{fc}\n"), vec!['a', '\u{fc}', '\n']);
    assert_eq!(from_chars(&vec!['a', '\u{fc}', '\n']), "a\u{fc}\n");
    assert_eq!(from_chars(&to_chars("")), "");
}

#[test]
fn decimal_numbers() {
    let text = |n: u128| {
        let mut out = vec!['#'];
        push_decimal(&mut out, n);
        from_chars(&out)
    };
    assert_eq!(text(0), "#0");
    assert_eq!(text(7), "#7");
    assert_eq!(text(10), "#10");
    assert_eq!(text(4096), "#4096");
    assert_eq!(text(u64::MAX as u128), "#18446744073709551615");
    assert_eq!(text(u128::MAX), "#340282366920938463463374607431768211455");
    let mut out = vec!['a'];
    push_text(&mut out, "bc");
    assert_eq!(out, vec!['a', 'b', 'c']);
}
