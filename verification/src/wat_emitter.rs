//! Pieces of the textual rendering of a module.

use crate::text::{
    from_chars, push_chars, push_decimal, push_joined, push_text, spec_decimal, spec_join,
    spec_padded, texts_view, to_chars, utf8_chars,
};
use crate::wasm_model::{
    DataSegModel, ElemModel, ElemModeModel, ExportModel, FileModel, FunctionModel,
    FunctionTypeModel, GlobalModel, ImportModel, WasmDataSeg, WasmElem, WasmElemMode,
    WasmExportHeader, WasmFile, WasmFunction, WasmFunctionType, WasmGlobal, WasmImportHeader,
    WasmImportType, WasmMemoryStruct, WasmRefType, WasmTable, WasmTypeAnnotation,
};
use crate::wat_expr::{block_chars, spec_block, spec_expression_text, FloatModel, FloatTexts};
use vstd::prelude::*;

verus! {

/// The name of the value type that a byte stands for; empty for a byte
/// that stands for none.
pub open spec fn spec_type_str(t: u8) -> &'static str {
    if t == 0x7c {
        "f64"
    } else if t == 0x7d {
        "f32"
    } else if t == 0x7e {
        "i64"
    } else if t == 0x7f {
        "i32"
    } else if t == 0x70 {
        "funcref"
    } else {
        ""
    }
}

/// The name of a value type; empty for a byte that stands for none.
pub fn type_to_str(wasm_type: WasmTypeAnnotation) -> (r: String)
    ensures
        r@ == spec_type_str(wasm_type._type)@,
{
    match wasm_type._type {
        0x7c => "f64",
        0x7d => "f32",
        0x7e => "i64",
        0x7f => "i32",
        0x70 => "funcref",
        _ => "",
    }.to_string()
}

/// The characters that bytes stand for, one for each byte.
pub open spec fn spec_byte_chars(v: Seq<u8>) -> Seq<char> {
    Seq::new(v.len(), |i: int| v[i] as char)
}

/// The text of some bytes, each byte taken as one character.
pub fn vec_to_string(vec: Vec<u8>) -> (r: String)
    ensures
        r@ == spec_byte_chars(vec@),
{
    let mut out: Vec<char> = Vec::new();
    let mut i: usize = 0;
    while i < vec.len()
        invariant
            i <= vec@.len(),
            out@ == spec_byte_chars(vec@.take(i as int)),
        decreases vec@.len() - i,
    {
        out.push(vec[i] as char);
        assert(spec_byte_chars(vec@.take(i + 1)) =~= spec_byte_chars(vec@.take(i as int)).push(
            vec@[i as int] as char,
        ));
        i = i + 1;
    }
    assert(vec@.take(i as int) =~= vec@);
    from_chars(&out)
}

/// `indent` times two blanks.
pub open spec fn spec_indentation(indent: nat) -> Seq<char> {
    Seq::new(2 * indent, |i: int| ' ')
}

/// The text `s` without `pad` at its end, where it ends so.
pub open spec fn spec_stripped(s: Seq<char>, pad: Seq<char>) -> Seq<char> {
    if pad.len() <= s.len() && s.subrange(s.len() - pad.len(), s.len() as int) == pad {
        s.take(s.len() - pad.len())
    } else {
        s
    }
}

/// The text `s` indented by `indent` steps of two blanks: the blanks come
/// before the text and behind each line feed, but not at the end.
pub open spec fn spec_indent(s: Seq<char>, indent: nat) -> Seq<char> {
    spec_stripped(
        spec_indentation(indent) + spec_padded(s, spec_indentation(indent)),
        spec_indentation(indent),
    )
}

/// Indents a text by `depth` steps of two blanks.
pub fn indent(s: String, depth: u32) -> (r: String)
    ensures
        r@ == spec_indent(s@, depth as nat),
{
    let chars = to_chars(s.as_str());
    from_chars(&indent_chars(&chars, depth))
}

/// Indents characters by `depth` steps of two blanks.
pub fn indent_chars(chars: &Vec<char>, depth: u32) -> (r: Vec<char>)
    ensures
        r@ == spec_indent(chars@, depth as nat),
{
    let ghost pad = spec_indentation(depth as nat);
    let mut indentation: Vec<char> = Vec::new();
    let mut k: u32 = 0;
    while k < depth
        invariant
            k <= depth,
            indentation@ == spec_indentation(k as nat),
        decreases depth - k,
    {
        indentation.push(' ');
        indentation.push(' ');
        assert(indentation@ =~= spec_indentation((k + 1) as nat));
        k = k + 1;
    }
    let mut out: Vec<char> = Vec::new();
    let mut j: usize = 0;
    while j < indentation.len()
        invariant
            j <= indentation@.len(),
            out@ == indentation@.take(j as int),
        decreases indentation@.len() - j,
    {
        out.push(indentation[j]);
        assert(indentation@.take(j + 1) =~= indentation@.take(j as int).push(
            indentation@[j as int],
        ));
        j = j + 1;
    }
    assert(indentation@.take(j as int) =~= indentation@);
    let mut i: usize = 0;
    assert(out@ =~= pad + spec_padded(chars@.take(0), pad));
    while i < chars.len()
        invariant
            i <= chars@.len(),
            indentation@ == pad,
            out@ == pad + spec_padded(chars@.take(i as int), pad),
        decreases chars@.len() - i,
    {
        let c = chars[i];
        let ghost before = out@;
        out.push(c);
        if c == '\n' {
            let mut j: usize = 0;
            while j < indentation.len()
                invariant
                    j <= indentation@.len(),
                    out@ == before.push(c) + indentation@.take(j as int),
                decreases indentation@.len() - j,
            {
                out.push(indentation[j]);
                assert(indentation@.take(j + 1) =~= indentation@.take(j as int).push(
                    indentation@[j as int],
                ));
                assert(out@ =~= before.push(c) + indentation@.take(j + 1));
                j = j + 1;
            }
            assert(indentation@.take(j as int) =~= indentation@);
        }
        proof {
            assert(chars@.take(i + 1).drop_last() =~= chars@.take(i as int));
            assert(chars@.take(i + 1).last() == c);
            assert(out@ =~= pad + spec_padded(chars@.take(i + 1), pad));
        }
        i = i + 1;
    }
    assert(chars@.take(i as int) =~= chars@);
    let n = indentation.len();
    if n <= out.len() {
        let total = out.len();
        let start = total - n;
        let mut same = true;
        let mut j: usize = 0;
        assert(out@.subrange(start as int, start + 0) =~= indentation@.take(0));
        while j < n
            invariant
                j <= n,
                n == indentation@.len(),
                start + n == total,
                total == out@.len(),
                same == (out@.subrange(start as int, start + j) == indentation@.take(j as int)),
            decreases n - j,
        {
            if out[start + j] != indentation[j] {
                same = false;
            }
            proof {
                let a = out@.subrange(start as int, start + j + 1);
                let b = indentation@.take(j + 1);
                assert(a.drop_last() =~= out@.subrange(start as int, start + j));
                assert(b.drop_last() =~= indentation@.take(j as int));
                if a == b {
                    assert(a.drop_last() == b.drop_last());
                    assert(a.last() == b.last());
                } else if out@.subrange(start as int, start + j) == indentation@.take(j as int)
                    && out@[start + j] == indentation@[j as int] {
                    assert(a =~= b);
                }
            }
            j = j + 1;
        }
        proof {
            assert(indentation@.take(n as int) =~= indentation@);
        }
        if same {
            out.truncate(start);
            assert(out@ =~= spec_indent(chars@, depth as nat));
        }
    }
    out
}

/// The names of value types, in order.
pub open spec fn spec_type_names(v: Seq<WasmTypeAnnotation>) -> Seq<Seq<char>> {
    Seq::new(v.len(), |i: int| spec_type_str(v[i]._type)@)
}

/// The names of value types with blanks between them.
pub open spec fn spec_type_list(v: Seq<WasmTypeAnnotation>) -> Seq<char> {
    spec_join(spec_type_names(v), v.len(), " "@)
}

/// The results of a signature: `(result` and the names of the types in
/// brackets; nothing where it declares none.
pub open spec fn spec_results_text(f: FunctionTypeModel) -> Seq<char> {
    if f.num_results != 0 {
        "(result "@ + spec_type_list(f.results) + ")"@
    } else {
        Seq::empty()
    }
}

/// The blank between the parameters and the results of a signature.
pub open spec fn spec_sig_gap(f: FunctionTypeModel) -> Seq<char> {
    if f.num_results != 0 {
        " "@
    } else {
        Seq::empty()
    }
}

/// The signature of an import: its parameters in one pair of brackets,
/// then its results.
pub open spec fn spec_sig_import(f: FunctionTypeModel) -> Seq<char> {
    (if f.num_params != 0 {
        "(param "@ + spec_type_list(f.params) + ")"@ + spec_sig_gap(f)
    } else {
        Seq::empty()
    }) + spec_results_text(f)
}

/// The parameters of a function, each named by its number.
pub open spec fn spec_param_texts(v: Seq<WasmTypeAnnotation>) -> Seq<Seq<char>> {
    Seq::new(
        v.len(),
        |i: int| "(param $var"@ + spec_decimal(i as nat) + " "@ + spec_type_str(v[i]._type)@ + ")"@,
    )
}

/// The signature of a function: each parameter in brackets of its own,
/// then the results.
pub open spec fn spec_sig(f: FunctionTypeModel) -> Seq<char> {
    (if f.num_params != 0 {
        spec_join(spec_param_texts(f.params), f.params.len(), " "@) + spec_sig_gap(f)
    } else {
        Seq::empty()
    }) + spec_results_text(f)
}

fn type_chars(t: u8) -> (r: Vec<char>)
    ensures
        r@ == spec_type_str(t)@,
{
    to_chars(
        match t {
            0x7c => "f64",
            0x7d => "f32",
            0x7e => "i64",
            0x7f => "i32",
            0x70 => "funcref",
            _ => "",
        },
    )
}

fn push_type_list(out: &mut Vec<char>, v: &Vec<WasmTypeAnnotation>)
    ensures
        final(out)@ == old(out)@ + spec_type_list(v@),
{
    let mut names: Vec<Vec<char>> = Vec::new();
    let mut i: usize = 0;
    while i < v.len()
        invariant
            i <= v@.len(),
            texts_view(names@) == spec_type_names(v@).take(i as int),
        decreases v@.len() - i,
    {
        let name = type_chars(v[i]._type);
        assert(texts_view(names@.push(name)) =~= texts_view(names@).push(name@));
        assert(spec_type_names(v@).take(i + 1) =~= spec_type_names(v@).take(i as int).push(
            name@,
        ));
        names.push(name);
        i = i + 1;
    }
    assert(spec_type_names(v@).take(i as int) =~= spec_type_names(v@));
    push_joined(out, &names, " ");
}

fn push_results(out: &mut Vec<char>, f: &WasmFunctionType)
    ensures
        final(out)@ == old(out)@ + spec_results_text(f@),
{
    if f.num_results != 0 {
        push_text(out, "(result ");
        push_type_list(out, &f.results);
        push_text(out, ")");
        assert(out@ =~= old(out)@ + spec_results_text(f@));
    } else {
        assert(out@ =~= old(out)@ + spec_results_text(f@));
    }
}

fn push_sig_import(out: &mut Vec<char>, f: &WasmFunctionType)
    ensures
        final(out)@ == old(out)@ + spec_sig_import(f@),
{
    if f.num_params != 0 {
        push_text(out, "(param ");
        push_type_list(out, &f.params);
        push_text(out, ")");
        if f.num_results != 0 {
            push_text(out, " ");
        }
    }
    assert(out@ =~= old(out)@ + (if f@.num_params != 0 {
        "(param "@ + spec_type_list(f@.params) + ")"@ + spec_sig_gap(f@)
    } else {
        Seq::empty()
    }));
    push_results(out, f);
    assert(out@ =~= old(out)@ + spec_sig_import(f@));
}

fn push_sig(out: &mut Vec<char>, f: &WasmFunctionType)
    ensures
        final(out)@ == old(out)@ + spec_sig(f@),
{
    if f.num_params != 0 {
        let mut params: Vec<Vec<char>> = Vec::new();
        let mut i: usize = 0;
        while i < f.params.len()
            invariant
                i <= f.params@.len(),
                texts_view(params@) == spec_param_texts(f.params@).take(i as int),
            decreases f.params@.len() - i,
        {
            let mut param: Vec<char> = Vec::new();
            push_text(&mut param, "(param $var");
            push_decimal(&mut param, i as u128);
            push_text(&mut param, " ");
            push_chars(&mut param, &type_chars(f.params[i]._type));
            push_text(&mut param, ")");
            assert(param@ =~= spec_param_texts(f.params@)[i as int]);
            assert(texts_view(params@.push(param)) =~= texts_view(params@).push(param@));
            assert(spec_param_texts(f.params@).take(i + 1) =~= spec_param_texts(f.params@).take(
                i as int,
            ).push(param@));
            params.push(param);
            i = i + 1;
        }
        assert(spec_param_texts(f.params@).take(i as int) =~= spec_param_texts(f.params@));
        push_joined(out, &params, " ");
        if f.num_results != 0 {
            push_text(out, " ");
        }
    }
    assert(out@ =~= old(out)@ + (if f@.num_params != 0 {
        spec_join(spec_param_texts(f@.params), f@.params.len(), " "@) + spec_sig_gap(f@)
    } else {
        Seq::empty()
    }));
    push_results(out, f);
    assert(out@ =~= old(out)@ + spec_sig(f@));
}

/// An export of a function or of a memory, by its name and its index;
/// nothing for an export of another kind. There is no text for a name
/// that is not UTF-8.
pub open spec fn spec_export_text(e: ExportModel) -> Option<Seq<char>> {
    if e.export_kind == 0 || e.export_kind == 2 {
        if vstd::utf8::valid_utf8(e.export_name) {
            Some(
                "(export \""@ + vstd::utf8::decode_utf8(e.export_name) + (if e.export_kind == 0 {
                    "\" (func $func"@
                } else {
                    "\" (memory $memory"@
                }) + spec_decimal(e.export_signature_index as nat) + "))\n"@,
            )
        } else {
            None
        }
    } else {
        Some(Seq::empty())
    }
}

fn export_chars(export: &WasmExportHeader) -> (r: Option<Vec<char>>)
    ensures
        match r {
            Some(t) => spec_export_text(export@) == Some(t@),
            None => spec_export_text(export@) is None,
        },
{
    let mut out: Vec<char> = Vec::new();
    if export.export_kind == 0 || export.export_kind == 2 {
        match utf8_chars(&export.export_name) {
            Some(name) => {
                push_text(&mut out, "(export \"");
                push_chars(&mut out, &name);
                if export.export_kind == 0 {
                    push_text(&mut out, "\" (func $func");
                } else {
                    push_text(&mut out, "\" (memory $memory");
                }
                push_decimal(&mut out, export.export_signature_index as u128);
                push_text(&mut out, "))\n");
                assert(spec_export_text(export@) == Some(out@)) by {
                    assert(out@ =~= spec_export_text(export@)->Some_0);
                }
                Some(out)
            },
            None => None,
        }
    } else {
        Some(out)
    }
}

/// A table: its number, its initial size, its maximum and its type.
pub open spec fn spec_table_text(i: nat, t: WasmTable) -> Seq<char> {
    "(table $table"@ + spec_decimal(i) + " "@ + spec_decimal(t.limits_initial as nat) + " "@
        + spec_decimal(t.limits_max as nat) + " "@ + spec_type_str(t.wasm_type)@ + ")\n"@
}

fn table_chars(i: usize, table: &WasmTable) -> (r: Vec<char>)
    ensures
        r@ == spec_table_text(i as nat, *table),
{
    let mut out: Vec<char> = Vec::new();
    push_text(&mut out, "(table $table");
    push_decimal(&mut out, i as u128);
    push_text(&mut out, " ");
    push_decimal(&mut out, table.limits_initial as u128);
    push_text(&mut out, " ");
    push_decimal(&mut out, table.limits_max as u128);
    push_text(&mut out, " ");
    push_chars(&mut out, &type_chars(table.wasm_type));
    push_text(&mut out, ")\n");
    assert(out@ =~= spec_table_text(i as nat, *table));
    out
}

/// A memory: its number, its initial size and its flags.
pub open spec fn spec_memory_text(i: nat, m: WasmMemoryStruct) -> Seq<char> {
    "(memory $memory"@ + spec_decimal(i) + " "@ + spec_decimal(m.limits_initial as nat) + " "@
        + spec_decimal(m.limits_flags as nat) + ")\n"@
}

fn memory_chars(i: usize, memory: &WasmMemoryStruct) -> (r: Vec<char>)
    ensures
        r@ == spec_memory_text(i as nat, *memory),
{
    let mut out: Vec<char> = Vec::new();
    push_text(&mut out, "(memory $memory");
    push_decimal(&mut out, i as u128);
    push_text(&mut out, " ");
    push_decimal(&mut out, memory.limits_initial as u128);
    push_text(&mut out, " ");
    push_decimal(&mut out, memory.limits_flags as u128);
    push_text(&mut out, ")\n");
    assert(out@ =~= spec_memory_text(i as nat, *memory));
    out
}

/// A global: its number, whether it can change, its type, and its
/// initializer.
pub open spec fn spec_global_text(i: nat, g: GlobalModel, floats: FloatModel) -> Seq<char> {
    "(global $global"@ + spec_decimal(i) + " ("@ + (if g.mutability != 0 {
        "mut"@
    } else {
        "immut"@
    }) + " "@ + spec_type_str(g.wasm_type._type)@ + ") ("@ + spec_expression_text(g.expr, floats)
        + "))\n"@
}

fn global_chars(i: usize, global: &WasmGlobal, floats: &FloatTexts) -> (r: Vec<char>)
    ensures
        r@ == spec_global_text(i as nat, global@, floats@),
{
    let mut out: Vec<char> = Vec::new();
    push_text(&mut out, "(global $global");
    push_decimal(&mut out, i as u128);
    push_text(&mut out, " (");
    if global.mutability != 0 {
        push_text(&mut out, "mut");
    } else {
        push_text(&mut out, "immut");
    }
    push_text(&mut out, " ");
    push_chars(&mut out, &type_chars(global.wasm_type._type));
    push_text(&mut out, ") (");
    global.expr.push_expression(&mut out, floats);
    push_text(&mut out, "))\n");
    assert(out@ =~= spec_global_text(i as nat, global@, floats@));
    out
}

/// The name of a reference type.
pub open spec fn spec_reftype_name(t: WasmRefType) -> &'static str {
    match t {
        WasmRefType::FuncRef => "funcref",
        WasmRefType::ExternRef => "externref",
    }
}

/// An element segment: its number, the offset where it is active, its
/// type, and its initializer.
pub open spec fn spec_elem_text(i: nat, e: ElemModel, floats: FloatModel) -> Seq<char> {
    "(elem $elem"@ + spec_decimal(i) + " "@ + (match e.mode {
        ElemModeModel::Active { table, offset_expr } => spec_expression_text(offset_expr, floats)
            + " "@,
        _ => Seq::empty(),
    }) + spec_reftype_name(e._type)@ + " "@ + spec_expression_text(e.init, floats) + ")\n"@
}

fn elem_chars(i: usize, elem: &WasmElem, floats: &FloatTexts) -> (r: Vec<char>)
    ensures
        r@ == spec_elem_text(i as nat, elem@, floats@),
{
    let mut out: Vec<char> = Vec::new();
    push_text(&mut out, "(elem $elem");
    push_decimal(&mut out, i as u128);
    push_text(&mut out, " ");
    match &elem.mode {
        WasmElemMode::Active(active_struct) => {
            active_struct.offset_expr.push_expression(&mut out, floats);
            push_text(&mut out, " ");
        },
        _ => {},
    }
    match elem._type {
        WasmRefType::FuncRef => {
            push_text(&mut out, "funcref");
        },
        WasmRefType::ExternRef => {
            push_text(&mut out, "externref");
        },
    }
    push_text(&mut out, " ");
    elem.init.push_expression(&mut out, floats);
    push_text(&mut out, ")\n");
    assert(out@ =~= spec_elem_text(i as nat, elem@, floats@));
    out
}

/// A data segment: its offset, and its bytes as text where they are
/// UTF-8.
pub open spec fn spec_data_text(d: DataSegModel, floats: FloatModel) -> Seq<char> {
    "(data "@ + spec_expression_text(d.expr, floats) + " "@ + (if vstd::utf8::valid_utf8(d.data) {
        vstd::utf8::decode_utf8(d.data)
    } else {
        "<PARSE ERROR>"@
    }) + ")\n"@
}

fn data_chars(data: &WasmDataSeg, floats: &FloatTexts) -> (r: Vec<char>)
    ensures
        r@ == spec_data_text(data@, floats@),
{
    let mut out: Vec<char> = Vec::new();
    push_text(&mut out, "(data ");
    data.header.expr.push_expression(&mut out, floats);
    push_text(&mut out, " ");
    match utf8_chars(&data.data) {
        Some(text) => {
            push_chars(&mut out, &text);
        },
        None => {
            push_text(&mut out, "<PARSE ERROR>");
        },
    }
    push_text(&mut out, ")\n");
    assert(out@ =~= spec_data_text(data@, floats@));
    out
}

/// The types of the locals of the first `upto` runs, one for each local.
pub open spec fn spec_local_types(runs: Seq<(u8, u64)>, upto: nat) -> Seq<u8>
    decreases upto,
{
    if upto == 0 || upto > runs.len() {
        Seq::empty()
    } else {
        spec_local_types(runs, (upto - 1) as nat) + Seq::new(
            runs[upto - 1].1 as nat,
            |k: int| runs[upto - 1].0,
        )
    }
}

/// The locals of the given types, each named by its number, counted from
/// `base` on.
pub open spec fn spec_local_texts(types: Seq<u8>, base: nat) -> Seq<Seq<char>> {
    Seq::new(
        types.len(),
        |i: int| "(local $var"@ + spec_decimal((i + base) as nat) + " "@ + spec_type_str(
            types[i],
        )@ + ")"@,
    )
}

/// The locals of a function as one line, where it has any.
pub open spec fn spec_locals_text(runs: Seq<(u8, u64)>, base: nat) -> Seq<char> {
    let types = spec_local_types(runs, runs.len());
    if types.len() > 0 {
        spec_indent(spec_join(spec_local_texts(types, base), types.len(), " "@) + "\n"@, 1)
    } else {
        Seq::empty()
    }
}

fn locals_chars(runs: &Vec<(u8, u64)>, base: usize) -> (r: Vec<char>)
    ensures
        r@ == spec_locals_text(runs@, base as nat),
{
    let ghost all = spec_local_types(runs@, runs@.len() as nat);
    let mut line: Vec<char> = Vec::new();
    let ghost mut types: Seq<u8> = Seq::empty();
    let mut number: u128 = base as u128;
    let mut r: usize = 0;
    let total = runs.len();
    assert(types =~= spec_local_types(runs@, 0));
    while r < total
        invariant
            total == runs@.len(),
            r <= runs@.len() <= usize::MAX,
            types == spec_local_types(runs@, r as nat),
            types.len() <= r * 0x1_0000_0000_0000_0000,
            number == types.len() + base,
            line@ == spec_join(spec_local_texts(types, base as nat), types.len(), " "@),
        decreases runs@.len() - r,
    {
        let ghost before = types;
        let t = runs[r].0;
        let count = runs[r].1;
        let mut k: u64 = 0;
        assert(types =~= before + Seq::new(0, |j: int| t));
        while k < count
            invariant
                k <= count,
                r < runs@.len() <= usize::MAX,
                before.len() <= r * 0x1_0000_0000_0000_0000,
                types.len() == before.len() + k,
                types == before + Seq::new(k as nat, |j: int| t),
                number == types.len() + base,
                line@ == spec_join(spec_local_texts(types, base as nat), types.len(), " "@),
            decreases count - k,
        {
            let ghost had = types;
            if number > base as u128 {
                push_text(&mut line, " ");
            }
            push_text(&mut line, "(local $var");
            push_decimal(&mut line, number);
            push_text(&mut line, " ");
            push_chars(&mut line, &type_chars(t));
            push_text(&mut line, ")");
            proof {
                types = had.push(t);
                assert(types =~= before + Seq::new((k + 1) as nat, |j: int| t));
                let texts = spec_local_texts(types, base as nat);
                let old_texts = spec_local_texts(had, base as nat);
                assert(texts[had.len() as int] == "(local $var"@ + spec_decimal(
                    (had.len() + base) as nat,
                ) + " "@ + spec_type_str(t)@ + ")"@);
                lemma_join_same(old_texts, texts, had.len(), " "@);
                assert(line@ =~= spec_join(texts, types.len(), " "@));
            }
            assert(number < u128::MAX) by {
                assert(r <= 0xffff_ffff_ffff_fffe);
                assert(base <= 0xffff_ffff_ffff_ffff);
                assert(k <= 0xffff_ffff_ffff_fffe);
            }
            number = number + 1;
            k = k + 1;
        }
        r = r + 1;
        assert(types =~= spec_local_types(runs@, r as nat));
    }
    if number > base as u128 {
        push_text(&mut line, "\n");
        indent_chars(&line, 1)
    } else {
        Vec::new()
    }
}

/// A joined text hangs on the parts that it joins alone.
pub proof fn lemma_join_same(a: Seq<Seq<char>>, b: Seq<Seq<char>>, upto: nat, sep: Seq<char>)
    requires
        upto <= a.len(),
        upto <= b.len(),
        forall|i: int| 0 <= i < upto ==> a[i] == b[i],
    ensures
        spec_join(a, upto, sep) == spec_join(b, upto, sep),
    decreases upto,
{
    if upto > 1 {
        lemma_join_same(a, b, (upto - 1) as nat, sep);
    }
}

/// The signature of the function number `i`: the entry of the type
/// section that the function section names for it.
pub open spec fn spec_func_sig(file: FileModel, i: int) -> Option<FunctionTypeModel> {
    if 0 <= i < file.function_section.entries.len() && file.function_section.entries[i]
        < file.type_section.entries.len() {
        Some(file.type_section.entries[file.function_section.entries[i] as int])
    } else {
        None
    }
}

/// A function: its number and its signature in one line, its locals in
/// the next, then its body, both indented. There is no text for a function
/// without a signature.
pub open spec fn spec_func_text(
    i: nat,
    func: FunctionModel,
    sig: Option<FunctionTypeModel>,
    floats: FloatModel,
) -> Option<Seq<char>> {
    match sig {
        None => None,
        Some(f) => Some(
            "(func $func"@ + spec_decimal(i) + spec_sig(f) + "\n"@ + spec_locals_text(
                func.local_types,
                f.params.len(),
            ) + spec_indent(spec_block(func.body, 0, 0, 0, floats).1 + "\n"@, 1) + ")\n"@,
        ),
    }
}

fn func_chars(
    i: usize,
    func: &WasmFunction,
    sig: Option<&WasmFunctionType>,
    floats: &FloatTexts,
) -> (r:
    Option<Vec<char>>)
    ensures
        match r {
            Some(t) => spec_func_text(
                i as nat,
                func@,
                match sig {
                    Some(f) => Some(f@),
                    None => None,
                },
                floats@,
            ) == Some(t@),
            None => sig is None,
        },
{
    match sig {
        None => None,
        Some(f) => {
            let mut out: Vec<char> = Vec::new();
            push_text(&mut out, "(func $func");
            push_decimal(&mut out, i as u128);
            push_sig(&mut out, f);
            push_text(&mut out, "\n");
            push_chars(&mut out, &locals_chars(&func.local_types, f.params.len()));
            let mut body = block_chars(&func.body, 0, 0, 0, floats).1;
            push_text(&mut body, "\n");
            push_chars(&mut out, &indent_chars(&body, 1));
            push_text(&mut out, ")\n");
            assert(out@ =~= spec_func_text(i as nat, func@, Some(f@), floats@)->Some_0);
            Some(out)
        },
    }
}

/// The name of a kind of import.
pub open spec fn spec_import_kind_name(k: WasmImportType) -> &'static str {
    match k {
        WasmImportType::Func => "func",
        WasmImportType::Table => "table",
        WasmImportType::Mem => "mem",
        WasmImportType::Global => "global",
    }
}

/// The signature that an import names with its descriptor byte.
pub open spec fn spec_import_sig(file: FileModel, imp: ImportModel) -> Option<FunctionTypeModel> {
    if imp.import_type < file.type_section.entries.len() {
        Some(file.type_section.entries[imp.import_type as int])
    } else {
        None
    }
}

/// An import: its kind, its number, the names of the module and of the
/// field, and its signature. There is no text for an import without a
/// signature.
pub open spec fn spec_import_text(
    i: nat,
    imp: ImportModel,
    sig: Option<FunctionTypeModel>,
) -> Option<
    Seq<char>,
> {
    match sig {
        None => None,
        Some(f) => Some(
            "("@ + spec_import_kind_name(imp.import_kind)@ + " $import"@ + spec_decimal(i)
                + " (import \""@ + spec_byte_chars(imp.import_module_name) + "\" \""@
                + spec_byte_chars(imp.import_field) + "\") "@ + spec_sig_import(f) + ")\n"@,
        ),
    }
}

fn push_byte_chars(out: &mut Vec<char>, v: &Vec<u8>)
    ensures
        final(out)@ == old(out)@ + spec_byte_chars(v@),
{
    let mut i: usize = 0;
    assert(out@ =~= old(out)@ + spec_byte_chars(v@.take(0)));
    while i < v.len()
        invariant
            i <= v@.len(),
            out@ == old(out)@ + spec_byte_chars(v@.take(i as int)),
        decreases v@.len() - i,
    {
        out.push(v[i] as char);
        assert(out@ =~= old(out)@ + spec_byte_chars(v@.take(i + 1)));
        i = i + 1;
    }
    assert(v@.take(i as int) =~= v@);
}

fn import_chars(i: usize, import: &WasmImportHeader, sig: Option<&WasmFunctionType>) -> (r: Option<
    Vec<char>,
>)
    ensures
        match r {
            Some(t) => spec_import_text(
                i as nat,
                import@,
                match sig {
                    Some(f) => Some(f@),
                    None => None,
                },
            ) == Some(t@),
            None => sig is None,
        },
{
    match sig {
        None => None,
        Some(f) => {
            let mut out: Vec<char> = Vec::new();
            push_text(&mut out, "(");
            match import.import_kind {
                WasmImportType::Func => {
                    push_text(&mut out, "func");
                },
                WasmImportType::Table => {
                    push_text(&mut out, "table");
                },
                WasmImportType::Mem => {
                    push_text(&mut out, "mem");
                },
                WasmImportType::Global => {
                    push_text(&mut out, "global");
                },
            }
            push_text(&mut out, " $import");
            push_decimal(&mut out, i as u128);
            push_text(&mut out, " (import \"");
            push_byte_chars(&mut out, &import.import_module_name);
            push_text(&mut out, "\" \"");
            push_byte_chars(&mut out, &import.import_field);
            push_text(&mut out, "\") ");
            push_sig_import(&mut out, f);
            push_text(&mut out, ")\n");
            assert(out@ =~= spec_import_text(i as nat, import@, Some(f@))->Some_0);
            Some(out)
        },
    }
}

/// The first `upto` of the texts `texts`, each indented by one step, in
/// a row. There is none where one of them is missing.
pub open spec fn spec_indented(texts: Seq<Option<Seq<char>>>, upto: nat) -> Option<Seq<char>>
    decreases upto,
{
    if upto == 0 || upto > texts.len() {
        Some(Seq::empty())
    } else {
        match (spec_indented(texts, (upto - 1) as nat), texts[upto - 1]) {
            (Some(before), Some(text)) => Some(before + spec_indent(text, 1)),
            _ => None,
        }
    }
}

proof fn lemma_indented_missing(texts: Seq<Option<Seq<char>>>, at: int, upto: nat)
    requires
        0 <= at < upto <= texts.len(),
        texts[at] is None,
    ensures
        spec_indented(texts, upto) is None,
    decreases upto,
{
    if at < upto - 1 {
        lemma_indented_missing(texts, at, (upto - 1) as nat);
    }
}

proof fn lemma_indented_same(a: Seq<Option<Seq<char>>>, b: Seq<Option<Seq<char>>>, upto: nat)
    requires
        upto <= a.len(),
        upto <= b.len(),
        forall|i: int| 0 <= i < upto ==> a[i] == b[i],
    ensures
        spec_indented(a, upto) == spec_indented(b, upto),
    decreases upto,
{
    if upto > 0 {
        lemma_indented_same(a, b, (upto - 1) as nat);
    }
}

/// Two texts in a row, where there are both.
pub open spec fn spec_then(a: Option<Seq<char>>, b: Option<Seq<char>>) -> Option<Seq<char>> {
    match (a, b) {
        (Some(x), Some(y)) => Some(x + y),
        _ => None,
    }
}

/// The texts of the imports of a module, in order.
pub open spec fn spec_import_texts(file: FileModel) -> Seq<Option<Seq<char>>> {
    Seq::new(
        file.import_section_header.entries.len(),
        |i: int|
            spec_import_text(
                i as nat,
                file.import_section_header.entries[i],
                spec_import_sig(file, file.import_section_header.entries[i]),
            ),
    )
}

fn imports_chars(wasm: &WasmFile) -> (r: Option<Vec<char>>)
    ensures
        spec_chars(r) == spec_indented(
            spec_import_texts(wasm@),
            spec_import_texts(wasm@).len(),
        ),
{
    let ghost texts = spec_import_texts(wasm@);
    let mut out: Vec<char> = Vec::new();
    let mut i: usize = 0;
    let n = wasm.import_section_header.imports.len();
    while i < n
        invariant
            i <= n,
            n == wasm.import_section_header.imports@.len(),
            n == texts.len(),
            texts == spec_import_texts(wasm@),
            spec_indented(texts, i as nat) == Some(out@),
        decreases n - i,
    {
        let ghost before = out@;
        proof {
            crate::wasm_model::lemma_views_index(wasm);
        }
        let import = &wasm.import_section_header.imports[i];
        let text = import_chars(i, import, wasm.get_import_sig(import));
        match text {
            Some(t) => {
                assert(texts[i as int] == Some(t@));
                push_chars(&mut out, &indent_chars(&t, 1));
            },
            None => {
                proof {
                    assert(texts[i as int] is None);
                    lemma_indented_missing(texts, i as int, n as nat);
                }
                return None;
            },
        }
        i = i + 1;
    }
    Some(out)
}

/// The texts of the tables of a module, in order.
pub open spec fn spec_table_texts(file: FileModel) -> Seq<Option<Seq<char>>> {
    Seq::new(
        file.table_section.entries.len(),
        |i: int| Some(spec_table_text(i as nat, file.table_section.entries[i])),
    )
}

fn tables_chars(wasm: &WasmFile) -> (r: Option<Vec<char>>)
    ensures
        spec_chars(r) == spec_indented(
            spec_table_texts(wasm@),
            spec_table_texts(wasm@).len(),
        ),
{
    let ghost texts = spec_table_texts(wasm@);
    let mut out: Vec<char> = Vec::new();
    let mut i: usize = 0;
    let n = wasm.table_section.tables.len();
    while i < n
        invariant
            i <= n,
            n == wasm.table_section.tables@.len(),
            n == texts.len(),
            texts == spec_table_texts(wasm@),
            spec_indented(texts, i as nat) == Some(out@),
        decreases n - i,
    {
        let ghost before = out@;
        proof {
            crate::wasm_model::lemma_views_index(wasm);
        }
        let text = table_chars(i, &wasm.table_section.tables[i]);
        assert(texts[i as int] == Some(text@));
        push_chars(&mut out, &indent_chars(&text, 1));
        i = i + 1;
    }
    Some(out)
}

/// The texts of the memories of a module, in order.
pub open spec fn spec_memory_texts(file: FileModel) -> Seq<Option<Seq<char>>> {
    Seq::new(
        file.memory_section.entries.len(),
        |i: int| Some(spec_memory_text(i as nat, file.memory_section.entries[i])),
    )
}

fn memories_chars(wasm: &WasmFile) -> (r: Option<Vec<char>>)
    ensures
        spec_chars(r) == spec_indented(
            spec_memory_texts(wasm@),
            spec_memory_texts(wasm@).len(),
        ),
{
    let ghost texts = spec_memory_texts(wasm@);
    let mut out: Vec<char> = Vec::new();
    let mut i: usize = 0;
    let n = wasm.memory_section.memories.len();
    while i < n
        invariant
            i <= n,
            n == wasm.memory_section.memories@.len(),
            n == texts.len(),
            texts == spec_memory_texts(wasm@),
            spec_indented(texts, i as nat) == Some(out@),
        decreases n - i,
    {
        let ghost before = out@;
        proof {
            crate::wasm_model::lemma_views_index(wasm);
        }
        let text = memory_chars(i, &wasm.memory_section.memories[i]);
        assert(texts[i as int] == Some(text@));
        push_chars(&mut out, &indent_chars(&text, 1));
        i = i + 1;
    }
    Some(out)
}

/// The texts of the globals of a module, in order.
pub open spec fn spec_global_texts(file: FileModel, floats: FloatModel) -> Seq<Option<Seq<char>>> {
    Seq::new(
        file.global_section.entries.len(),
        |i: int| Some(spec_global_text(i as nat, file.global_section.entries[i], floats)),
    )
}

fn globals_chars(wasm: &WasmFile, floats: &FloatTexts) -> (r: Option<Vec<char>>)
    ensures
        spec_chars(r) == spec_indented(
            spec_global_texts(wasm@, floats@),
            spec_global_texts(wasm@, floats@).len(),
        ),
{
    let ghost texts = spec_global_texts(wasm@, floats@);
    let mut out: Vec<char> = Vec::new();
    let mut i: usize = 0;
    let n = wasm.global_section.globals.len();
    while i < n
        invariant
            i <= n,
            n == wasm.global_section.globals@.len(),
            n == texts.len(),
            texts == spec_global_texts(wasm@, floats@),
            spec_indented(texts, i as nat) == Some(out@),
        decreases n - i,
    {
        let ghost before = out@;
        proof {
            crate::wasm_model::lemma_views_index(wasm);
        }
        let text = global_chars(i, &wasm.global_section.globals[i], floats);
        assert(texts[i as int] == Some(text@));
        push_chars(&mut out, &indent_chars(&text, 1));
        i = i + 1;
    }
    Some(out)
}

/// The texts of the exports of a module, in order.
pub open spec fn spec_export_texts(file: FileModel) -> Seq<Option<Seq<char>>> {
    Seq::new(
        file.export_section.entries.len(),
        |i: int| spec_export_text(file.export_section.entries[i]),
    )
}

fn exports_chars(wasm: &WasmFile) -> (r: Option<Vec<char>>)
    ensures
        spec_chars(r) == spec_indented(
            spec_export_texts(wasm@),
            spec_export_texts(wasm@).len(),
        ),
{
    let ghost texts = spec_export_texts(wasm@);
    let mut out: Vec<char> = Vec::new();
    let mut i: usize = 0;
    let n = wasm.export_section.exports.len();
    while i < n
        invariant
            i <= n,
            n == wasm.export_section.exports@.len(),
            n == texts.len(),
            texts == spec_export_texts(wasm@),
            spec_indented(texts, i as nat) == Some(out@),
        decreases n - i,
    {
        let ghost before = out@;
        proof {
            crate::wasm_model::lemma_views_index(wasm);
        }
        let text = export_chars(&wasm.export_section.exports[i]);
        match text {
            Some(t) => {
                assert(texts[i as int] == Some(t@));
                push_chars(&mut out, &indent_chars(&t, 1));
            },
            None => {
                proof {
                    assert(texts[i as int] is None);
                    lemma_indented_missing(texts, i as int, n as nat);
                }
                return None;
            },
        }
        i = i + 1;
    }
    Some(out)
}

/// The texts of the element segments of a module, in order.
pub open spec fn spec_elem_texts(file: FileModel, floats: FloatModel) -> Seq<Option<Seq<char>>> {
    Seq::new(
        file.elem_section.entries.len(),
        |i: int| Some(spec_elem_text(i as nat, file.elem_section.entries[i], floats)),
    )
}

fn elems_chars(wasm: &WasmFile, floats: &FloatTexts) -> (r: Option<Vec<char>>)
    ensures
        spec_chars(r) == spec_indented(
            spec_elem_texts(wasm@, floats@),
            spec_elem_texts(wasm@, floats@).len(),
        ),
{
    let ghost texts = spec_elem_texts(wasm@, floats@);
    let mut out: Vec<char> = Vec::new();
    let mut i: usize = 0;
    let n = wasm.elem_section.elems.len();
    while i < n
        invariant
            i <= n,
            n == wasm.elem_section.elems@.len(),
            n == texts.len(),
            texts == spec_elem_texts(wasm@, floats@),
            spec_indented(texts, i as nat) == Some(out@),
        decreases n - i,
    {
        let ghost before = out@;
        proof {
            crate::wasm_model::lemma_views_index(wasm);
        }
        let text = elem_chars(i, &wasm.elem_section.elems[i], floats);
        assert(texts[i as int] == Some(text@));
        push_chars(&mut out, &indent_chars(&text, 1));
        i = i + 1;
    }
    Some(out)
}

/// The texts of the functions of a module, in order.
pub open spec fn spec_func_texts(file: FileModel, floats: FloatModel) -> Seq<Option<Seq<char>>> {
    Seq::new(
        file.code_section.entries.len(),
        |i: int|
            spec_func_text(i as nat, file.code_section.entries[i], spec_func_sig(file, i), floats),
    )
}

fn funcs_chars(wasm: &WasmFile, floats: &FloatTexts) -> (r: Option<Vec<char>>)
    ensures
        spec_chars(r) == spec_indented(
            spec_func_texts(wasm@, floats@),
            spec_func_texts(wasm@, floats@).len(),
        ),
{
    let ghost texts = spec_func_texts(wasm@, floats@);
    let mut out: Vec<char> = Vec::new();
    let mut i: usize = 0;
    let n = wasm.code_section.functions.len();
    while i < n
        invariant
            i <= n,
            n == wasm.code_section.functions@.len(),
            n == texts.len(),
            texts == spec_func_texts(wasm@, floats@),
            spec_indented(texts, i as nat) == Some(out@),
        decreases n - i,
    {
        let ghost before = out@;
        proof {
            crate::wasm_model::lemma_views_index(wasm);
        }
        let text = func_chars(i, &wasm.code_section.functions[i], wasm.get_func_sig(i), floats);
        match text {
            Some(t) => {
                assert(texts[i as int] == Some(t@));
                push_chars(&mut out, &indent_chars(&t, 1));
            },
            None => {
                proof {
                    assert(texts[i as int] is None);
                    lemma_indented_missing(texts, i as int, n as nat);
                }
                return None;
            },
        }
        i = i + 1;
    }
    Some(out)
}

/// The texts of the data segments of a module, in order.
pub open spec fn spec_data_texts(file: FileModel, floats: FloatModel) -> Seq<Option<Seq<char>>> {
    Seq::new(
        file.data_section.entries.len(),
        |i: int| Some(spec_data_text(file.data_section.entries[i], floats)),
    )
}

fn datas_chars(wasm: &WasmFile, floats: &FloatTexts) -> (r: Option<Vec<char>>)
    ensures
        spec_chars(r) == spec_indented(
            spec_data_texts(wasm@, floats@),
            spec_data_texts(wasm@, floats@).len(),
        ),
{
    let ghost texts = spec_data_texts(wasm@, floats@);
    let mut out: Vec<char> = Vec::new();
    let mut i: usize = 0;
    let n = wasm.data_section.data_segs.len();
    while i < n
        invariant
            i <= n,
            n == wasm.data_section.data_segs@.len(),
            n == texts.len(),
            texts == spec_data_texts(wasm@, floats@),
            spec_indented(texts, i as nat) == Some(out@),
        decreases n - i,
    {
        let ghost before = out@;
        proof {
            crate::wasm_model::lemma_views_index(wasm);
        }
        let text = data_chars(&wasm.data_section.data_segs[i], floats);
        assert(texts[i as int] == Some(text@));
        push_chars(&mut out, &indent_chars(&text, 1));
        i = i + 1;
    }
    Some(out)
}

/// The text of a module: `(module`, then its imports, tables, memories,
/// globals, exports, element segments, functions and data segments, each
/// indented by one step, then `)`. There is none where an import or a
/// function has no signature, or an export has a name that is not UTF-8.
pub open spec fn spec_module_text(file: FileModel, floats: FloatModel) -> Option<Seq<char>> {
    spec_then(
        Some("(module\n"@),
        spec_then(
            spec_indented(spec_import_texts(file), spec_import_texts(file).len()),
            spec_then(
                spec_indented(spec_table_texts(file), spec_table_texts(file).len()),
                spec_then(
                    spec_indented(spec_memory_texts(file), spec_memory_texts(file).len()),
                    spec_then(
                        spec_indented(
                            spec_global_texts(file, floats),
                            spec_global_texts(file, floats).len(),
                        ),
                        spec_then(
                            spec_indented(spec_export_texts(file), spec_export_texts(file).len()),
                            spec_then(
                                spec_indented(
                                    spec_elem_texts(file, floats),
                                    spec_elem_texts(file, floats).len(),
                                ),
                                spec_then(
                                    spec_indented(
                                        spec_func_texts(file, floats),
                                        spec_func_texts(file, floats).len(),
                                    ),
                                    spec_then(
                                        spec_indented(
                                            spec_data_texts(file, floats),
                                            spec_data_texts(file, floats).len(),
                                        ),
                                        Some(")"@),
                                    ),
                                ),
                            ),
                        ),
                    ),
                ),
            ),
        ),
    )
}

/// The characters of a text, where there is one.
pub open spec fn spec_chars(o: Option<Vec<char>>) -> Option<Seq<char>> {
    match o {
        Some(v) => Some(v@),
        None => None,
    }
}

fn then_chars(a: Option<Vec<char>>, b: Option<Vec<char>>) -> (r: Option<Vec<char>>)
    ensures
        spec_chars(r) == spec_then(spec_chars(a), spec_chars(b)),
{
    match (a, b) {
        (Some(x), Some(y)) => {
            let mut out = x;
            push_chars(&mut out, &y);
            Some(out)
        },
        _ => None,
    }
}

/// The text of a module, where it has one: `(module`, then its imports,
/// tables, memories, globals, exports, element segments, functions and
/// data segments, each indented by one step, then `)`. The texts of its
/// floating-point immediates are taken from `floats`.
pub fn emit_wat(wasm: &WasmFile, floats: &FloatTexts) -> (r: Option<String>)
    ensures
        match r {
            Some(t) => spec_module_text(wasm@, floats@) == Some(t@),
            None => spec_module_text(wasm@, floats@) is None,
        },
{
    let datas = datas_chars(wasm, floats);
    let text = then_chars(datas, Some(to_chars(")")));
    let funcs = funcs_chars(wasm, floats);
    let text = then_chars(funcs, text);
    let elems = elems_chars(wasm, floats);
    let text = then_chars(elems, text);
    let exports = exports_chars(wasm);
    let text = then_chars(exports, text);
    let globals = globals_chars(wasm, floats);
    let text = then_chars(globals, text);
    let memories = memories_chars(wasm);
    let text = then_chars(memories, text);
    let tables = tables_chars(wasm);
    let text = then_chars(tables, text);
    let imports = imports_chars(wasm);
    let text = then_chars(imports, text);
    let text = then_chars(Some(to_chars("(module\n")), text);
    match text {
        Some(t) => Some(from_chars(&t)),
        None => None,
    }
}

impl WasmFile {
    /// The signature of an import as text.
    pub fn sig_to_import_wat(&self, f: &WasmFunctionType) -> (r: String)
        ensures
            r@ == spec_sig_import(f@),
    {
        let mut out: Vec<char> = Vec::new();
        push_sig_import(&mut out, f);
        assert(out@ =~= spec_sig_import(f@));
        from_chars(&out)
    }

    /// The number of parameters of a function, and its signature as text.
    pub fn sig_to_wat(&self, f: &WasmFunctionType) -> (r: (usize, String))
        ensures
            r.0 == f.params@.len(),
            r.1@ == spec_sig(f@),
    {
        let mut out: Vec<char> = Vec::new();
        push_sig(&mut out, f);
        assert(out@ =~= spec_sig(f@));
        (f.params.len(), from_chars(&out))
    }

    /// An export as text, where it has one.
    pub fn export_to_wat(&self, export: &WasmExportHeader) -> (r: Option<String>)
        ensures
            match r {
                Some(t) => spec_export_text(export@) == Some(t@),
                None => spec_export_text(export@) is None,
            },
    {
        match export_chars(export) {
            Some(t) => Some(from_chars(&t)),
            None => None,
        }
    }

    /// A table as text.
    pub fn table_to_wat(&self, i: usize, table: &WasmTable) -> (r: String)
        ensures
            r@ == spec_table_text(i as nat, *table),
    {
        from_chars(&table_chars(i, table))
    }

    /// An element segment as text.
    pub fn elem_to_wat(&self, i: usize, elem: &WasmElem, floats: &FloatTexts) -> (r: String)
        ensures
            r@ == spec_elem_text(i as nat, elem@, floats@),
    {
        from_chars(&elem_chars(i, elem, floats))
    }

    /// The function number `i` as text, where it has a signature.
    pub fn func_to_wat(&self, i: usize, func: &WasmFunction, floats: &FloatTexts) -> (r: Option<
        String,
    >)
        ensures
            match r {
                Some(t) => spec_func_text(i as nat, func@, spec_func_sig(self@, i as int), floats@)
                    == Some(t@),
                None => spec_func_sig(self@, i as int) is None,
            },
    {
        proof {
            crate::wasm_model::lemma_views_index(self);
        }
        match func_chars(i, func, self.get_func_sig(i), floats) {
            Some(t) => Some(from_chars(&t)),
            None => None,
        }
    }

    /// A memory as text.
    pub fn memory_to_wat(&self, i: usize, memory: &WasmMemoryStruct) -> (r: String)
        ensures
            r@ == spec_memory_text(i as nat, *memory),
    {
        from_chars(&memory_chars(i, memory))
    }

    /// A global as text.
    pub fn global_to_wat(&self, i: usize, global: &WasmGlobal, floats: &FloatTexts) -> (r: String)
        ensures
            r@ == spec_global_text(i as nat, global@, floats@),
    {
        from_chars(&global_chars(i, global, floats))
    }

    /// A data segment as text.
    pub fn data_to_wat(&self, data: &WasmDataSeg, floats: &FloatTexts) -> (r: String)
        ensures
            r@ == spec_data_text(data@, floats@),
    {
        from_chars(&data_chars(data, floats))
    }
}

} // verus!
