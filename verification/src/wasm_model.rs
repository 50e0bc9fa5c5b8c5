//! The in-memory model of a module: instruction descriptors, expressions and
//! the typed sections, each with the mathematical view its contracts speak of.

use crate::instr_table::{instr_info, spec_instr};
use crate::parser::prs::GrammarTrait;
use crate::usdm::{SpecialStackOp, StackOperation, UsdmFrontend, UsdmSegment};
use vstd::prelude::*;

verus! {

/// What a type of values is marked with.
pub trait TypeTrait {

}

/// Tag of a stack slot or of an immediate operand.
#[derive(Debug, Clone, Copy, PartialEq, Eq, Structural)]
pub enum Prim {
    Void,
    I32,
    I64,
    F32,
    F64,
    Local,
    Global,
    Generic,
    Func,
}

/// Number and lower-case name of a primitive tag.
pub fn type_values(t: Prim) -> (r: (i32, String))
    ensures
        r.0 == spec_type_number(t),
        r.1@ == spec_type_name(t)@,
{
    match t {
        Prim::Void => (0, "void".to_string()),
        Prim::I32 => (1, "i32".to_string()),
        Prim::I64 => (2, "i64".to_string()),
        Prim::F32 => (3, "f32".to_string()),
        Prim::F64 => (4, "f64".to_string()),
        Prim::Local => (5, "local".to_string()),
        Prim::Global => (6, "global".to_string()),
        Prim::Func => (7, "funcidx".to_string()),
        Prim::Generic => (8, "generic".to_string()),
    }
}

/// The number of a tag.
pub open spec fn spec_type_number(t: Prim) -> int {
    match t {
        Prim::Void => 0,
        Prim::I32 => 1,
        Prim::I64 => 2,
        Prim::F32 => 3,
        Prim::F64 => 4,
        Prim::Local => 5,
        Prim::Global => 6,
        Prim::Func => 7,
        Prim::Generic => 8,
    }
}

/// The lower-case name of a tag.
pub open spec fn spec_type_name(t: Prim) -> &'static str {
    match t {
        Prim::Void => "void",
        Prim::I32 => "i32",
        Prim::I64 => "i64",
        Prim::F32 => "f32",
        Prim::F64 => "f64",
        Prim::Local => "local",
        Prim::Global => "global",
        Prim::Func => "funcidx",
        Prim::Generic => "generic",
    }
}

/// Why a module could not be decoded.
#[derive(Debug, Clone, Copy, PartialEq, Eq, Structural)]
pub enum WasmError {
    /// The first four bytes are not `00 61 73 6D`.
    InvalidMagic,
    /// The input ended inside a value.
    UnexpectedEof,
    /// A reference type byte that is neither `funcref` nor `externref`.
    InvalidReftype(u8),
    /// An element segment of a flavor that is not decoded.
    InvalidElementKind(u32),
    /// An opcode that the catalogue leaves unassigned.
    UnknownOpcode(u8),
    /// The initializer of a global is not a constant expression.
    MalformedGlobalInit,
    /// A function type that does not start with the tag `0x60`.
    InvalidTypeTag(u8),
}

/// Descriptor of one opcode.
#[derive(Clone, Copy, Debug)]
pub struct InstrInfo {
    /// The opcode byte.
    pub instr: u8,
    /// The mnemonic; empty where the opcode is unassigned.
    pub name: &'static str,
    /// What the instruction takes from the stack.
    pub in_types: &'static [Prim],
    /// What it leaves on the stack.
    pub out_types: &'static [Prim],
    /// The immediates that follow the opcode in the byte stream.
    pub constants: &'static [Prim],
    /// Whether an alignment byte follows the opcode.
    pub takes_align: bool,
}

/// A descriptor as a value of sequences.
pub struct InstrModel {
    pub instr: u8,
    pub name: Seq<char>,
    pub in_types: Seq<Prim>,
    pub out_types: Seq<Prim>,
    pub constants: Seq<Prim>,
    pub takes_align: bool,
}

impl View for InstrInfo {
    type V = InstrModel;

    open spec fn view(&self) -> InstrModel {
        InstrModel {
            instr: self.instr,
            name: self.name@,
            in_types: self.in_types@,
            out_types: self.out_types@,
            constants: self.constants@,
            takes_align: self.takes_align,
        }
    }
}

/// The control-flow role of an opcode.
#[derive(Debug, Clone, Copy, PartialEq, Eq, Structural)]
pub enum SpecialInstr {
    Normal,
    BrTable,
    BeginBlock,
    EndBlock,
    CallIndirect,
}

/// The role of an opcode: `br_table`, `call_indirect`, the three openers
/// of blocks and `end` have roles of their own.
pub open spec fn spec_edge_case(opcode: u8) -> SpecialInstr {
    if opcode == 0x0e {
        SpecialInstr::BrTable
    } else if opcode == 0x02 || opcode == 0x03 || opcode == 0x04 {
        SpecialInstr::BeginBlock
    } else if opcode == 0x0b {
        SpecialInstr::EndBlock
    } else if opcode == 0x11 {
        SpecialInstr::CallIndirect
    } else {
        SpecialInstr::Normal
    }
}

/// Classifies a descriptor by its opcode alone.
pub fn get_edge_case(info: InstrInfo) -> (r: SpecialInstr)
    ensures
        r == spec_edge_case(info.instr),
{
    match info.instr {
        0x0e => SpecialInstr::BrTable,
        0x02 | 0x03 | 0x04 => SpecialInstr::BeginBlock,
        0x0b => SpecialInstr::EndBlock,
        0x11 => SpecialInstr::CallIndirect,
        _ => SpecialInstr::Normal,
    }
}

/// The immediate of `br_table`: the target depths and the default.
#[derive(Debug)]
pub struct BrTableConst {
    pub break_depths: Vec<u32>,
    pub default: u32,
}

/// One segment of an expression.
#[derive(Debug)]
pub enum ExprSeg {
    /// A bare opcode.
    Operation(InstrInfo),
    /// A structured block: the opener, the body with its own `end` as last
    /// segment, and the descriptor of that `end`.
    ControlFlow(InstrInfo, Box<WasmExpr>, InstrInfo),
    /// Raw bits of an integer immediate.
    Int(i64),
    /// Raw bits of a 32-bit float immediate.
    Float32(u32),
    /// Raw bits of a 64-bit float immediate.
    Float64(u64),
    Local(u32),
    Global(u32),
    Func(u32),
    BrTable(BrTableConst),
    /// An opcode with its immediates: the head is an `Operation`.
    Instr(Vec<ExprSeg>),
}

/// An ordered sequence of segments.
#[derive(Debug)]
pub struct WasmExpr {
    pub expr_string: Vec<ExprSeg>,
}

/// A segment as a value of sequences.
pub enum SegModel {
    Operation(InstrModel),
    ControlFlow(InstrModel, Seq<SegModel>, InstrModel),
    Int(i64),
    Float32(u32),
    Float64(u64),
    Local(u32),
    Global(u32),
    Func(u32),
    BrTable(Seq<u32>, u32),
    Instr(Seq<SegModel>),
}

/// The model of a segment.
pub open spec fn seg_view(s: ExprSeg) -> SegModel
    decreases s,
{
    match s {
        ExprSeg::Operation(i) => SegModel::Operation(i@),
        ExprSeg::ControlFlow(a, e, b) => SegModel::ControlFlow(
            a@,
            Seq::new(
                e.expr_string@.len(),
                |i: int|
                    if 0 <= i < e.expr_string@.len() {
                        seg_view(e.expr_string@[i])
                    } else {
                        SegModel::Int(0)
                    },
            ),
            b@,
        ),
        ExprSeg::Int(v) => SegModel::Int(v),
        ExprSeg::Float32(v) => SegModel::Float32(v),
        ExprSeg::Float64(v) => SegModel::Float64(v),
        ExprSeg::Local(v) => SegModel::Local(v),
        ExprSeg::Global(v) => SegModel::Global(v),
        ExprSeg::Func(v) => SegModel::Func(v),
        ExprSeg::BrTable(t) => SegModel::BrTable(t.break_depths@, t.default),
        ExprSeg::Instr(v) => SegModel::Instr(
            Seq::new(
                v@.len(),
                |i: int|
                    if 0 <= i < v@.len() {
                        seg_view(v@[i])
                    } else {
                        SegModel::Int(0)
                    },
            ),
        ),
    }
}

/// The models of a sequence of segments, in order.
pub open spec fn segs_view(v: Seq<ExprSeg>) -> Seq<SegModel> {
    Seq::new(v.len(), |i: int| seg_view(v[i]))
}

impl View for ExprSeg {
    type V = SegModel;

    open spec fn view(&self) -> SegModel {
        seg_view(*self)
    }
}

impl View for WasmExpr {
    type V = Seq<SegModel>;

    open spec fn view(&self) -> Seq<SegModel> {
        segs_view(self.expr_string@)
    }
}

/// The model of an instruction is made of the models of its segments.
pub proof fn lemma_seg_view_instr(v: Vec<ExprSeg>)
    ensures
        seg_view(ExprSeg::Instr(v)) == SegModel::Instr(segs_view(v@)),
{
    assert(seg_view(ExprSeg::Instr(v))->Instr_0 =~= segs_view(v@));
}

/// The model of a block is made of the models of its opener, its body
/// and its `end`.
pub proof fn lemma_seg_view_control(a: InstrInfo, e: Box<WasmExpr>, b: InstrInfo)
    ensures
        seg_view(ExprSeg::ControlFlow(a, e, b)) == SegModel::ControlFlow(a@, e@, b@),
{
    assert(seg_view(ExprSeg::ControlFlow(a, e, b))->ControlFlow_1 =~= e@);
}

/// The models of segments with one more are the models with one more.
pub proof fn lemma_segs_view_push(v: Seq<ExprSeg>, s: ExprSeg)
    ensures
        segs_view(v.push(s)) == segs_view(v).push(seg_view(s)),
{
    assert(segs_view(v.push(s)) =~= segs_view(v).push(seg_view(s)));
}

impl Clone for BrTableConst {
    fn clone(&self) -> (r: Self)
        ensures
            r.break_depths@ == self.break_depths@,
            r.default == self.default,
    {
        let mut depths: Vec<u32> = Vec::new();
        let mut i: usize = 0;
        while i < self.break_depths.len()
            invariant
                i <= self.break_depths@.len(),
                depths@ == self.break_depths@.take(i as int),
            decreases self.break_depths@.len() - i,
        {
            depths.push(self.break_depths[i]);
            assert(self.break_depths@.take(i as int).push(self.break_depths@[i as int])
                =~= self.break_depths@.take(i + 1));
            i = i + 1;
        }
        assert(self.break_depths@.take(i as int) =~= self.break_depths@);
        BrTableConst { break_depths: depths, default: self.default }
    }
}

impl Clone for ExprSeg {
    fn clone(&self) -> (r: Self)
        ensures
            r@ == self@,
        decreases self,
    {
        match self {
            ExprSeg::Operation(i) => ExprSeg::Operation(*i),
            ExprSeg::ControlFlow(a, e, b) => {
                let mut out: Vec<ExprSeg> = Vec::new();
                let mut i: usize = 0;
                while i < e.expr_string.len()
                    invariant
                        decreases_to!(*self => e.expr_string),
                        i <= e.expr_string@.len(),
                        segs_view(out@) == segs_view(e.expr_string@).take(i as int),
                    decreases e.expr_string@.len() - i,
                {
                    proof {
                        vstd::std_specs::vec::axiom_vec_index_decreases(e.expr_string, i as int);
                    }
                    let c = e.expr_string[i].clone();
                    proof {
                        lemma_segs_view_push(out@, c);
                        assert(segs_view(e.expr_string@).take(i as int).push(c@) =~= segs_view(
                            e.expr_string@,
                        ).take(i + 1));
                    }
                    out.push(c);
                    i = i + 1;
                }
                let inner = Box::new(WasmExpr { expr_string: out });
                proof {
                    assert(segs_view(e.expr_string@).take(i as int) =~= segs_view(e.expr_string@));
                    lemma_seg_view_control(*a, inner, *b);
                    lemma_seg_view_control(*a, *e, *b);
                }
                ExprSeg::ControlFlow(*a, inner, *b)
            },
            ExprSeg::Int(v) => ExprSeg::Int(*v),
            ExprSeg::Float32(v) => ExprSeg::Float32(*v),
            ExprSeg::Float64(v) => ExprSeg::Float64(*v),
            ExprSeg::Local(v) => ExprSeg::Local(*v),
            ExprSeg::Global(v) => ExprSeg::Global(*v),
            ExprSeg::Func(v) => ExprSeg::Func(*v),
            ExprSeg::BrTable(t) => ExprSeg::BrTable(t.clone()),
            ExprSeg::Instr(v) => {
                let mut out: Vec<ExprSeg> = Vec::new();
                let mut i: usize = 0;
                while i < v.len()
                    invariant
                        decreases_to!(*self => *v),
                        i <= v@.len(),
                        segs_view(out@) == segs_view(v@).take(i as int),
                    decreases v@.len() - i,
                {
                    proof {
                        vstd::std_specs::vec::axiom_vec_index_decreases(*v, i as int);
                    }
                    let c = v[i].clone();
                    proof {
                        lemma_segs_view_push(out@, c);
                        assert(segs_view(v@).take(i as int).push(c@) =~= segs_view(v@).take(
                            i + 1,
                        ));
                    }
                    out.push(c);
                    i = i + 1;
                }
                proof {
                    assert(segs_view(v@).take(i as int) =~= segs_view(v@));
                    lemma_seg_view_instr(out);
                    lemma_seg_view_instr(*v);
                }
                ExprSeg::Instr(out)
            },
        }
    }
}

impl Clone for WasmExpr {
    fn clone(&self) -> (r: Self)
        ensures
            r@ == self@,
    {
        let mut out: Vec<ExprSeg> = Vec::new();
        let mut i: usize = 0;
        while i < self.expr_string.len()
            invariant
                i <= self.expr_string@.len(),
                segs_view(out@) == segs_view(self.expr_string@).take(i as int),
            decreases self.expr_string@.len() - i,
        {
            let c = self.expr_string[i].clone();
            proof {
                lemma_segs_view_push(out@, c);
                assert(segs_view(self.expr_string@).take(i as int).push(c@) =~= segs_view(
                    self.expr_string@,
                ).take(i + 1));
            }
            out.push(c);
            i = i + 1;
        }
        assert(segs_view(self.expr_string@).take(i as int) =~= segs_view(self.expr_string@));
        WasmExpr { expr_string: out }
    }
}

impl WasmExpr {
    /// A fresh, empty expression in a box.
    pub fn new_box() -> (r: Box<Self>)
        ensures
            r@ == Seq::<SegModel>::empty(),
    {
        let r = Box::new(Self { expr_string: Vec::new() });
        assert(r@ =~= Seq::<SegModel>::empty());
        r
    }
}

/// The views of a sequence of values, in order.
pub open spec fn views<T: View>(v: Seq<T>) -> Seq<T::V> {
    Seq::new(v.len(), |i: int| v[i]@)
}

/// The views of values with one more are the views with one more.
pub proof fn lemma_views_push<T: View>(v: Seq<T>, x: T)
    ensures
        views(v.push(x)) == views(v).push(x@),
{
    assert(views(v.push(x)) =~= views(v).push(x@));
}

/// No values have no views.
pub proof fn lemma_views_empty<T: View>()
    ensures
        views(Seq::<T>::empty()) == Seq::<T::V>::empty(),
{
    assert(views(Seq::<T>::empty()) =~= Seq::<T::V>::empty());
}

/// A section as a value of sequences: its declared byte size, its declared
/// count, and its entries in order.
pub struct SectionModel<E> {
    pub section_size: u64,
    pub count: u64,
    pub entries: Seq<E>,
}

/// The first eight bytes of a module.
#[derive(Debug, Clone, Copy, PartialEq, Eq, Structural)]
pub struct WasmHeader {
    pub magic_number: u32,
    pub version: u32,
}

/// A value type byte.
#[derive(Debug, Clone, Copy, PartialEq, Eq, Structural)]
pub struct WasmTypeAnnotation {
    pub _type: u8,
}

/// A value with its type; a float as its bits.
#[derive(Debug, Clone, Copy, PartialEq, Eq, Structural)]
pub enum WasmTypedData {
    Void,
    I32(i32),
    I64(i64),
    F32(u32),
    F64(u64),
}

/// The signature of a function.
#[derive(Debug)]
pub struct WasmFunctionType {
    pub func: u8,
    pub num_params: u64,
    pub params: Vec<WasmTypeAnnotation>,
    pub num_results: u64,
    pub results: Vec<WasmTypeAnnotation>,
}

/// A signature as a value of sequences.
pub struct FunctionTypeModel {
    pub func: u8,
    pub num_params: u64,
    pub params: Seq<WasmTypeAnnotation>,
    pub num_results: u64,
    pub results: Seq<WasmTypeAnnotation>,
}

impl View for WasmFunctionType {
    type V = FunctionTypeModel;

    open spec fn view(&self) -> FunctionTypeModel {
        FunctionTypeModel {
            func: self.func,
            num_params: self.num_params,
            params: self.params@,
            num_results: self.num_results,
            results: self.results@,
        }
    }
}

/// The type section: the signatures of the module.
#[derive(Debug)]
pub struct WasmTypeSection {
    pub section_size: u64,
    pub num_types: u64,
    pub function_signatures: Vec<WasmFunctionType>,
}

impl View for WasmTypeSection {
    type V = SectionModel<FunctionTypeModel>;

    open spec fn view(&self) -> SectionModel<FunctionTypeModel> {
        SectionModel {
            section_size: self.section_size,
            count: self.num_types,
            entries: views(self.function_signatures@),
        }
    }
}

/// What an import brings in.
#[derive(Debug, Clone, Copy, PartialEq, Eq, Structural)]
pub enum WasmImportType {
    Func,
    Table,
    Mem,
    Global,
}

/// The kind of import that a kind byte stands for.
pub open spec fn spec_import_type(num: u8) -> WasmImportType {
    if num == 0 {
        WasmImportType::Func
    } else if num == 1 {
        WasmImportType::Table
    } else if num == 2 {
        WasmImportType::Mem
    } else {
        WasmImportType::Global
    }
}

/// The kind of import that a kind byte stands for; any byte above 2 stands
/// for a global.
pub fn num_to_import_type(num: u8) -> (r: WasmImportType)
    ensures
        r == spec_import_type(num),
{
    match num {
        0x00 => WasmImportType::Func,
        0x01 => WasmImportType::Table,
        0x02 => WasmImportType::Mem,
        _ => WasmImportType::Global,
    }
}

/// One import: the names of the module and of the field, the kind, and
/// the descriptor byte.
#[derive(Debug)]
pub struct WasmImportHeader {
    pub mod_name_length: u64,
    pub import_module_name: Vec<u8>,
    pub import_field_len: u64,
    pub import_field: Vec<u8>,
    pub import_kind: WasmImportType,
    pub import_type: u8,
}

/// An import as a value of sequences.
pub struct ImportModel {
    pub mod_name_length: u64,
    pub import_module_name: Seq<u8>,
    pub import_field_len: u64,
    pub import_field: Seq<u8>,
    pub import_kind: WasmImportType,
    pub import_type: u8,
}

impl View for WasmImportHeader {
    type V = ImportModel;

    open spec fn view(&self) -> ImportModel {
        ImportModel {
            mod_name_length: self.mod_name_length,
            import_module_name: self.import_module_name@,
            import_field_len: self.import_field_len,
            import_field: self.import_field@,
            import_kind: self.import_kind,
            import_type: self.import_type,
        }
    }
}

/// The import section.
#[derive(Debug)]
pub struct WasmImportSection {
    pub section_size: u64,
    pub num_imports: u64,
    pub imports: Vec<WasmImportHeader>,
}

impl View for WasmImportSection {
    type V = SectionModel<ImportModel>;

    open spec fn view(&self) -> SectionModel<ImportModel> {
        SectionModel {
            section_size: self.section_size,
            count: self.num_imports,
            entries: views(self.imports@),
        }
    }
}

/// The function section: for each function the number of its signature.
#[derive(Debug)]
pub struct WasmFunctionSection {
    pub section_size: u64,
    pub num_functions: u64,
    pub function_signature_indexes: Vec<u8>,
}

impl View for WasmFunctionSection {
    type V = SectionModel<u8>;

    open spec fn view(&self) -> SectionModel<u8> {
        SectionModel {
            section_size: self.section_size,
            count: self.num_functions,
            entries: self.function_signature_indexes@,
        }
    }
}

/// A table: its reference type byte and its limits.
#[derive(Debug, Clone, Copy, PartialEq, Eq, Structural)]
pub struct WasmTable {
    pub wasm_type: u8,
    pub limits_flags: u8,
    pub limits_initial: u64,
    pub limits_max: u64,
}

/// The table section.
#[derive(Debug)]
pub struct WasmTableSection {
    pub section_size: u64,
    pub num_tables: u64,
    pub tables: Vec<WasmTable>,
}

impl View for WasmTableSection {
    type V = SectionModel<WasmTable>;

    open spec fn view(&self) -> SectionModel<WasmTable> {
        SectionModel {
            section_size: self.section_size,
            count: self.num_tables,
            entries: self.tables@,
        }
    }
}

/// A memory: its limits.
#[derive(Debug, Clone, Copy, PartialEq, Eq, Structural)]
pub struct WasmMemoryStruct {
    pub limits_flags: u8,
    pub limits_initial: u64,
    pub limits_max: u64,
}

/// The memory section.
#[derive(Debug)]
pub struct WasmMemorySection {
    pub section_size: u64,
    pub num_memories: u64,
    pub memories: Vec<WasmMemoryStruct>,
}

impl View for WasmMemorySection {
    type V = SectionModel<WasmMemoryStruct>;

    open spec fn view(&self) -> SectionModel<WasmMemoryStruct> {
        SectionModel {
            section_size: self.section_size,
            count: self.num_memories,
            entries: self.memories@,
        }
    }
}

/// A global: its type, whether it can change, and the expression that
/// gives its first value.
#[derive(Debug)]
pub struct WasmGlobal {
    pub wasm_type: WasmTypeAnnotation,
    pub mutability: u8,
    pub expr: WasmExpr,
}

/// A global as a value of sequences.
pub struct GlobalModel {
    pub wasm_type: WasmTypeAnnotation,
    pub mutability: u8,
    pub expr: Seq<SegModel>,
}

impl View for WasmGlobal {
    type V = GlobalModel;

    open spec fn view(&self) -> GlobalModel {
        GlobalModel { wasm_type: self.wasm_type, mutability: self.mutability, expr: self.expr@ }
    }
}

/// The global section.
#[derive(Debug)]
pub struct WasmGlobalSection {
    pub section_size: u64,
    pub num_globals: u64,
    pub globals: Vec<WasmGlobal>,
}

impl View for WasmGlobalSection {
    type V = SectionModel<GlobalModel>;

    open spec fn view(&self) -> SectionModel<GlobalModel> {
        SectionModel {
            section_size: self.section_size,
            count: self.num_globals,
            entries: views(self.globals@),
        }
    }
}

/// One export: its name, the kind byte and the index byte.
#[derive(Debug)]
pub struct WasmExportHeader {
    pub export_name_len: u64,
    pub export_name: Vec<u8>,
    pub export_kind: u8,
    pub export_signature_index: u8,
}

/// An export as a value of sequences.
pub struct ExportModel {
    pub export_name_len: u64,
    pub export_name: Seq<u8>,
    pub export_kind: u8,
    pub export_signature_index: u8,
}

impl View for WasmExportHeader {
    type V = ExportModel;

    open spec fn view(&self) -> ExportModel {
        ExportModel {
            export_name_len: self.export_name_len,
            export_name: self.export_name@,
            export_kind: self.export_kind,
            export_signature_index: self.export_signature_index,
        }
    }
}

/// The export section.
#[derive(Debug)]
pub struct WasmExportSection {
    pub section_size: u64,
    pub num_exports: u64,
    pub exports: Vec<WasmExportHeader>,
}

impl View for WasmExportSection {
    type V = SectionModel<ExportModel>;

    open spec fn view(&self) -> SectionModel<ExportModel> {
        SectionModel {
            section_size: self.section_size,
            count: self.num_exports,
            entries: views(self.exports@),
        }
    }
}

/// A reference type.
#[derive(Debug, Clone, Copy, PartialEq, Eq, Structural)]
pub enum WasmRefType {
    FuncRef,
    ExternRef,
}

/// The reference type that a byte stands for: `0x70` for functions,
/// `0x6f` for references from outside.
pub open spec fn spec_reftype(byte: u8) -> Result<WasmRefType, WasmError> {
    if byte == 0x70 {
        Ok(WasmRefType::FuncRef)
    } else if byte == 0x6f {
        Ok(WasmRefType::ExternRef)
    } else {
        Err(WasmError::InvalidReftype(byte))
    }
}

/// The reference type that a byte stands for.
pub fn byte_to_reftype(byte: u8) -> (r: Result<WasmRefType, WasmError>)
    ensures
        r == spec_reftype(byte),
{
    match byte {
        0x70 => Ok(WasmRefType::FuncRef),
        0x6F => Ok(WasmRefType::ExternRef),
        _ => Err(WasmError::InvalidReftype(byte)),
    }
}

/// Where an active element segment goes.
#[derive(Debug)]
pub struct AcvtiveStruct {
    pub table: u32,
    pub offset_expr: WasmExpr,
}

/// How an element segment is used.
#[derive(Debug)]
pub enum WasmElemMode {
    Passive,
    Active(AcvtiveStruct),
    Declarative,
}

/// The mode of an element segment as a value of sequences.
pub enum ElemModeModel {
    Passive,
    Active { table: u32, offset_expr: Seq<SegModel> },
    Declarative,
}

impl View for WasmElemMode {
    type V = ElemModeModel;

    open spec fn view(&self) -> ElemModeModel {
        match self {
            WasmElemMode::Passive => ElemModeModel::Passive,
            WasmElemMode::Active(a) => ElemModeModel::Active {
                table: a.table,
                offset_expr: a.offset_expr@,
            },
            WasmElemMode::Declarative => ElemModeModel::Declarative,
        }
    }
}

/// An element segment.
#[derive(Debug)]
pub struct WasmElem {
    pub _type: WasmRefType,
    pub init: WasmExpr,
    pub mode: WasmElemMode,
}

/// An element segment as a value of sequences.
pub struct ElemModel {
    pub _type: WasmRefType,
    pub init: Seq<SegModel>,
    pub mode: ElemModeModel,
}

impl View for WasmElem {
    type V = ElemModel;

    open spec fn view(&self) -> ElemModel {
        ElemModel { _type: self._type, init: self.init@, mode: self.mode@ }
    }
}

/// The element section.
#[derive(Debug)]
pub struct WasmElemSection {
    pub section_size: u64,
    pub num_elems: u64,
    pub elems: Vec<WasmElem>,
}

impl View for WasmElemSection {
    type V = SectionModel<ElemModel>;

    open spec fn view(&self) -> SectionModel<ElemModel> {
        SectionModel {
            section_size: self.section_size,
            count: self.num_elems,
            entries: views(self.elems@),
        }
    }
}

/// The type of one local.
#[derive(Debug, Clone, Copy, PartialEq, Eq, Structural)]
pub struct WasmLocal {
    pub _type: WasmTypeAnnotation,
}

/// A function of the code section: its declared size, its locals as runs of
/// a type byte and a count, its body, and the bytes of the body.
#[derive(Debug)]
pub struct WasmFunction {
    pub size: u64,
    pub local_types: Vec<(u8, u64)>,
    pub body: WasmExpr,
    pub raw_body: Vec<u64>,
}

/// A function of the code section as a value of sequences.
pub struct FunctionModel {
    pub size: u64,
    pub local_types: Seq<(u8, u64)>,
    pub body: Seq<SegModel>,
    pub raw_body: Seq<u64>,
}

impl View for WasmFunction {
    type V = FunctionModel;

    open spec fn view(&self) -> FunctionModel {
        FunctionModel {
            size: self.size,
            local_types: self.local_types@,
            body: self.body@,
            raw_body: self.raw_body@,
        }
    }
}

/// The code section.
#[derive(Debug)]
pub struct WasmCodeSection {
    pub section_size: u64,
    pub num_functions: u64,
    pub functions: Vec<WasmFunction>,
}

impl View for WasmCodeSection {
    type V = SectionModel<FunctionModel>;

    open spec fn view(&self) -> SectionModel<FunctionModel> {
        SectionModel {
            section_size: self.section_size,
            count: self.num_functions,
            entries: views(self.functions@),
        }
    }
}

/// What comes before the bytes of a data segment: its flags, its offset
/// and the number of its bytes.
#[derive(Debug)]
pub struct WasmDataSegHeader {
    pub header_flags: u8,
    pub expr: WasmExpr,
    pub data_size: u64,
}

/// A data segment.
#[derive(Debug)]
pub struct WasmDataSeg {
    pub header: WasmDataSegHeader,
    pub data: Vec<u8>,
}

/// A data segment as a value of sequences.
pub struct DataSegModel {
    pub header_flags: u8,
    pub expr: Seq<SegModel>,
    pub data_size: u64,
    pub data: Seq<u8>,
}

impl View for WasmDataSeg {
    type V = DataSegModel;

    open spec fn view(&self) -> DataSegModel {
        DataSegModel {
            header_flags: self.header.header_flags,
            expr: self.header.expr@,
            data_size: self.header.data_size,
            data: self.data@,
        }
    }
}

/// The data section.
#[derive(Debug)]
pub struct WasmDataSection {
    pub section_size: u64,
    pub num_data_segs: u64,
    pub data_segs: Vec<WasmDataSeg>,
}

impl View for WasmDataSection {
    type V = SectionModel<DataSegModel>;

    open spec fn view(&self) -> SectionModel<DataSegModel> {
        SectionModel {
            section_size: self.section_size,
            count: self.num_data_segs,
            entries: views(self.data_segs@),
        }
    }
}

/// The data count section.
#[derive(Debug, Clone, Copy, PartialEq, Eq, Structural)]
pub struct WasmDataCountSection {
    pub section_size: u64,
    pub datacount: u64,
}

/// A decoded module.
#[derive(Debug)]
pub struct WasmFile {
    pub wasm_header: WasmHeader,
    pub type_section: WasmTypeSection,
    pub import_section_header: WasmImportSection,
    pub function_section: WasmFunctionSection,
    pub table_section: WasmTableSection,
    pub memory_section: WasmMemorySection,
    pub global_section: WasmGlobalSection,
    pub export_section: WasmExportSection,
    pub elem_section: WasmElemSection,
    pub code_section: WasmCodeSection,
    pub data_section: WasmDataSection,
    pub data_count_section: WasmDataCountSection,
}

/// A module as a value of sequences.
pub struct FileModel {
    pub wasm_header: WasmHeader,
    pub type_section: SectionModel<FunctionTypeModel>,
    pub import_section_header: SectionModel<ImportModel>,
    pub function_section: SectionModel<u8>,
    pub table_section: SectionModel<WasmTable>,
    pub memory_section: SectionModel<WasmMemoryStruct>,
    pub global_section: SectionModel<GlobalModel>,
    pub export_section: SectionModel<ExportModel>,
    pub elem_section: SectionModel<ElemModel>,
    pub code_section: SectionModel<FunctionModel>,
    pub data_section: SectionModel<DataSegModel>,
    pub data_count_section: WasmDataCountSection,
}

impl View for WasmFile {
    type V = FileModel;

    open spec fn view(&self) -> FileModel {
        FileModel {
            wasm_header: self.wasm_header,
            type_section: self.type_section@,
            import_section_header: self.import_section_header@,
            function_section: self.function_section@,
            table_section: self.table_section@,
            memory_section: self.memory_section@,
            global_section: self.global_section@,
            export_section: self.export_section@,
            elem_section: self.elem_section@,
            code_section: self.code_section@,
            data_section: self.data_section@,
            data_count_section: self.data_count_section,
        }
    }
}

/// The start symbol of the grammar of function bodies. The symbols of that
/// grammar that are no bytes are the greatest numbers.
pub const START: u64 = u64::MAX - 1;

/// A statement.
pub const STMT: u64 = u64::MAX - 2;

/// A run of statements.
pub const STMTS: u64 = u64::MAX - 3;

/// An instruction.
pub const INSTR: u64 = u64::MAX - 4;

/// The addition of two numbers.
pub const ADD_U64_OP: u64 = u64::MAX - 5;

impl GrammarTrait for u64 {
    fn start_sym() -> (r: Self)
        ensures
            r == START,
    {
        START
    }

    fn same(&self, other: &Self) -> (r: bool) {
        *self == *other
    }
}

/// 128 to the power of the number of 7-bit groups that `v` takes, none for
/// zero.
pub open spec fn spec_groups(v: nat) -> nat
    decreases v,
{
    if v == 0 {
        0
    } else {
        1 + spec_groups(v / 128)
    }
}

/// The size that is reckoned for an integer immediate: one more than the
/// number of 7-bit groups of its magnitude, where the least integer counts
/// as the greatest.
pub open spec fn spec_dyn_size(i: i64) -> nat {
    if i == i64::MIN {
        1 + spec_groups(i64::MAX as nat)
    } else if i < 0 {
        1 + spec_groups((-i) as nat)
    } else {
        1 + spec_groups(i as nat)
    }
}

proof fn lemma_groups_bound(v: nat, k: nat)
    requires
        v < crate::file_reader::pow128(k),
    ensures
        spec_groups(v) <= k,
    decreases k,
{
    if v > 0 {
        assert(k > 0);
        lemma_groups_bound(v / 128, (k - 1) as nat);
    }
}

/// The size that is reckoned for an integer immediate.
pub fn calc_dyn_size(i: i64) -> (r: usize)
    ensures
        r == spec_dyn_size(i),
{
    let mut rest: u64 = if i == i64::MIN {
        i64::MAX as u64
    } else if i < 0 {
        (-i) as u64
    } else {
        i as u64
    };
    let ghost whole = rest as nat;
    let mut count: usize = 1;
    proof {
        crate::file_reader::lemma_pow128_bounds(10);
        lemma_groups_bound(whole, 10);
    }
    while rest != 0
        invariant
            count + spec_groups(rest as nat) == 1 + spec_groups(whole),
            count <= 11,
            count + spec_groups(rest as nat) <= 11,
        decreases rest,
    {
        rest = rest / 128;
        count = count + 1;
    }
    count
}

/// Where a rendering of an expression stands: the segment it starts from,
/// and the number of the label of the next block.
#[derive(Clone, Copy, Debug)]
pub struct EmitterState {
    pub start_segment: usize,
    pub label: usize,
}

/// The state of a rendering that has not begun.
pub fn blank_emitter() -> (r: EmitterState)
    ensures
        r.start_segment == 0,
        r.label == 0,
{
    EmitterState { start_segment: 0, label: 0 }
}

/// Why a flat run of segments could not be built into an expression.
#[derive(Debug, Clone, Copy, PartialEq, Eq, Structural)]
pub enum ExprError {
    /// A segment that should be an opcode is none.
    ExpectedInstruction,
    /// The segments end before the immediates of an opcode do.
    Misordered,
}

/// How many segments follow an opcode in a flat run: one for `br_table`,
/// two for `call_indirect`, else one for each immediate of the
/// descriptor.
pub open spec fn spec_taken(info: InstrModel) -> nat {
    match spec_edge_case(info.instr) {
        SpecialInstr::BrTable => 1,
        SpecialInstr::CallIndirect => 2,
        _ => info.constants.len(),
    }
}

/// The expression that the builder makes of the flat run `input` from
/// `pos` on, where the blocks of `openers` are open, `outers` are the
/// expressions that enclose them, innermost last, and `cur` is the one in
/// progress. An opcode takes the segments that follow it as its
/// immediates. An opener starts a new expression and its immediates are
/// dropped. An `end` closes the expression in progress, which becomes a
/// block of the one that encloses it; the `end` that closes the outermost
/// one ends the run. Where the run ends first, the expression in progress
/// is the result.
pub open spec fn spec_build(
    input: Seq<SegModel>,
    pos: int,
    outers: Seq<Seq<SegModel>>,
    openers: Seq<InstrModel>,
    cur: Seq<SegModel>,
) -> Result<Seq<SegModel>, ExprError>
    decreases input.len() - pos,
{
    if pos < 0 || pos >= input.len() {
        Ok(cur)
    } else {
        match input[pos] {
            SegModel::Operation(info) => {
                let next = pos + 1 + spec_taken(info);
                if next > input.len() {
                    Err(ExprError::Misordered)
                } else {
                    match spec_edge_case(info.instr) {
                        SpecialInstr::BeginBlock => spec_build(
                            input,
                            next,
                            outers.push(cur),
                            openers.push(info),
                            Seq::empty(),
                        ),
                        SpecialInstr::EndBlock => {
                            let closed = cur.push(SegModel::Operation(info));
                            if outers.len() == 0 {
                                Ok(closed)
                            } else {
                                spec_build(
                                    input,
                                    next,
                                    outers.drop_last(),
                                    openers.drop_last(),
                                    outers.last().push(
                                        SegModel::ControlFlow(openers.last(), closed, info),
                                    ),
                                )
                            }
                        },
                        _ => spec_build(
                            input,
                            next,
                            outers,
                            openers,
                            cur.push(SegModel::Instr(input.subrange(pos, next))),
                        ),
                    }
                }
            },
            _ => Err(ExprError::ExpectedInstruction),
        }
    }
}

/// The views of expressions, in order.
pub open spec fn exprs_view(v: Seq<WasmExpr>) -> Seq<Seq<SegModel>> {
    Seq::new(v.len(), |i: int| v[i]@)
}

/// The views of descriptors, in order.
pub open spec fn infos_view(v: Seq<InstrInfo>) -> Seq<InstrModel> {
    Seq::new(v.len(), |i: int| v[i]@)
}

impl From<Vec<ExprSeg>> for WasmExpr {
    /// The expression of the given segments.
    fn from(expr_string: Vec<ExprSeg>) -> (r: Self) {
        Self { expr_string }
    }
}

impl vstd::std_specs::convert::FromSpecImpl<Vec<ExprSeg>> for WasmExpr {
    open spec fn obeys_from_spec() -> bool {
        true
    }

    open spec fn from_spec(expr_string: Vec<ExprSeg>) -> Self {
        WasmExpr { expr_string }
    }
}

impl WasmExpr {
    /// Builds the nested expression of a flat run of segments, in which
    /// each opcode is followed by its immediates.
    pub fn parse_string(&self) -> (r: Result<WasmExpr, ExprError>)
        ensures
            match r {
                Ok(expr) => spec_build(self@, 0, Seq::empty(), Seq::empty(), Seq::empty()) == Ok::<
                    _,
                    ExprError,
                >(expr@),
                Err(e) => spec_build(self@, 0, Seq::empty(), Seq::empty(), Seq::empty()) == Err::<
                    Seq<SegModel>,
                    _,
                >(e),
            },
    {
        let ghost input = self@;
        let mut scope: Vec<WasmExpr> = Vec::new();
        let mut control_flow: Vec<InstrInfo> = Vec::new();
        let mut current = WasmExpr { expr_string: Vec::new() };
        let mut pos: usize = 0;
        proof {
            assert(current@ =~= Seq::<SegModel>::empty());
            assert(exprs_view(scope@) =~= Seq::<Seq<SegModel>>::empty());
            assert(infos_view(control_flow@) =~= Seq::<InstrModel>::empty());
        }
        while pos < self.expr_string.len()
            invariant
                pos <= self.expr_string@.len(),
                input == self@,
                input.len() == self.expr_string@.len(),
                scope@.len() == control_flow@.len(),
                spec_build(input, 0, Seq::empty(), Seq::empty(), Seq::empty()) == spec_build(
                    input,
                    pos as int,
                    exprs_view(scope@),
                    infos_view(control_flow@),
                    current@,
                ),
            decreases self.expr_string@.len() - pos,
        {
            let ghost outers = exprs_view(scope@);
            let ghost openers = infos_view(control_flow@);
            let ghost cur = current@;
            assert(input[pos as int] == self.expr_string@[pos as int]@);
            let info = match &self.expr_string[pos] {
                ExprSeg::Operation(info) => *info,
                _ => {
                    return Err(ExprError::ExpectedInstruction);
                },
            };
            let special_case = get_edge_case(info);
            let taken = if special_case == SpecialInstr::BrTable {
                1
            } else if special_case == SpecialInstr::CallIndirect {
                2
            } else {
                info.constants.len()
            };
            if taken > self.expr_string.len() - pos - 1 {
                return Err(ExprError::Misordered);
            }
            let next = pos + 1 + taken;
            if special_case == SpecialInstr::BeginBlock {
                proof {
                    assert(exprs_view(scope@.push(current)) =~= outers.push(cur));
                    assert(infos_view(control_flow@.push(info)) =~= openers.push(info@));
                }
                scope.push(current);
                control_flow.push(info);
                current = WasmExpr { expr_string: Vec::new() };
                assert(current@ =~= Seq::<SegModel>::empty());
            } else if special_case == SpecialInstr::EndBlock {
                proof {
                    lemma_segs_view_push(current.expr_string@, ExprSeg::Operation(info));
                }
                current.expr_string.push(ExprSeg::Operation(info));
                if scope.len() == 0 {
                    return Ok(current);
                }
                let opener = control_flow.pop().unwrap();
                let mut outer = scope.pop().unwrap();
                let inner = Box::new(current);
                proof {
                    assert(exprs_view(scope@) =~= outers.drop_last());
                    assert(infos_view(control_flow@) =~= openers.drop_last());
                    lemma_seg_view_control(opener, inner, info);
                    lemma_segs_view_push(
                        outer.expr_string@,
                        ExprSeg::ControlFlow(opener, inner, info),
                    );
                }
                outer.expr_string.push(ExprSeg::ControlFlow(opener, inner, info));
                current = outer;
            } else {
                let mut layout: Vec<ExprSeg> = Vec::new();
                let mut k: usize = pos;
                assert(segs_view(layout@) =~= input.subrange(pos as int, pos as int));
                while k < next
                    invariant
                        pos <= k <= next <= self.expr_string@.len(),
                        input == self@,
                        segs_view(layout@) == input.subrange(pos as int, k as int),
                    decreases next - k,
                {
                    let seg = self.expr_string[k].clone();
                    proof {
                        lemma_segs_view_push(layout@, seg);
                        assert(input.subrange(pos as int, k + 1) =~= input.subrange(
                            pos as int,
                            k as int,
                        ).push(input[k as int]));
                    }
                    layout.push(seg);
                    k = k + 1;
                }
                proof {
                    lemma_seg_view_instr(layout);
                    lemma_segs_view_push(current.expr_string@, ExprSeg::Instr(layout));
                }
                current.expr_string.push(ExprSeg::Instr(layout));
            }
            pos = next;
        }
        Ok(current)
    }
}

/// What a pattern is made of.
#[derive(Debug)]
pub enum IdiomGrammar {
    /// Exactly this expression.
    StrictExpr(WasmExpr),
    /// Any one segment.
    InstrWildcard,
    /// Any run of segments.
    ExprWildcard,
}

/// What a pattern stands for.
#[derive(Debug, Clone, Copy, PartialEq, Eq, Structural)]
pub enum WasmIdiom {
    Double,
}

/// A pattern and the idiom that it gives away.
#[derive(Debug)]
pub struct WasmIdiomPattern {
    pub pattern: Vec<IdiomGrammar>,
    pub idiom: WasmIdiom,
}

impl WasmIdiomPattern {
    /// The pattern of one expression, given as a flat run of segments.
    /// `None` where the run cannot be built into an expression.
    pub fn independent_expr(expr: WasmExpr, idiom: WasmIdiom) -> (r: Option<Self>)
        ensures
            match r {
                Some(p) => {
                    &&& p.idiom == idiom
                    &&& p.pattern@.len() == 1
                    &&& p.pattern@[0] matches IdiomGrammar::StrictExpr(built) && spec_build(
                        expr@,
                        0,
                        Seq::empty(),
                        Seq::empty(),
                        Seq::empty(),
                    ) == Ok::<_, ExprError>(built@)
                },
                None => spec_build(expr@, 0, Seq::empty(), Seq::empty(), Seq::empty()) is Err,
            },
    {
        match expr.parse_string() {
            Ok(built) => {
                let mut pattern: Vec<IdiomGrammar> = Vec::new();
                pattern.push(IdiomGrammar::StrictExpr(built));
                Some(Self { pattern, idiom })
            },
            Err(_) => None,
        }
    }

    /// The pattern of doubling: the constant 1, then a shift to the left.
    pub fn double() -> (r: Self)
        ensures
            r.idiom == WasmIdiom::Double,
            r.pattern@.len() == 1,
            r.pattern@[0] matches IdiomGrammar::StrictExpr(built) && built@ == spec_double(),
    {
        let mut flat: Vec<ExprSeg> = Vec::new();
        flat.push(ExprSeg::Operation(instr_info(0x41)));
        flat.push(ExprSeg::Int(1));
        flat.push(ExprSeg::Operation(instr_info(0x74)));
        let expr = WasmExpr { expr_string: flat };
        proof {
            let input = expr@;
            let none = Seq::<SegModel>::empty();
            assert(input =~= seq![
                SegModel::Operation(spec_instr(0x41)),
                SegModel::Int(1),
                SegModel::Operation(spec_instr(0x74)),
            ]);
            let first = SegModel::Instr(input.subrange(0, 2));
            let second = SegModel::Instr(input.subrange(2, 3));
            assert(input.subrange(0, 2) =~= seq![
                SegModel::Operation(spec_instr(0x41)),
                SegModel::Int(1),
            ]);
            assert(input.subrange(2, 3) =~= seq![SegModel::Operation(spec_instr(0x74))]);
            assert(none.push(first).push(second) =~= spec_double());
            assert(spec_build(input, 3, Seq::empty(), Seq::empty(), none.push(first).push(second))
                == Ok::<_, ExprError>(none.push(first).push(second)));
            assert(spec_build(input, 2, Seq::empty(), Seq::empty(), none.push(first))
                == spec_build(
                input,
                3,
                Seq::empty(),
                Seq::empty(),
                none.push(first).push(second),
            ));
            assert(spec_build(input, 0, Seq::empty(), Seq::empty(), none) == spec_build(
                input,
                2,
                Seq::empty(),
                Seq::empty(),
                none.push(first),
            ));
        }
        match Self::independent_expr(expr, WasmIdiom::Double) {
            Some(p) => p,
            None => {
                assert(false);
                Self { pattern: Vec::new(), idiom: WasmIdiom::Double }
            },
        }
    }
}

/// The expression of the pattern of doubling.
pub open spec fn spec_double() -> Seq<SegModel> {
    seq![
        SegModel::Instr(seq![SegModel::Operation(spec_instr(0x41)), SegModel::Int(1)]),
        SegModel::Instr(seq![SegModel::Operation(spec_instr(0x74))]),
    ]
}

/// A copy of a list of tags.
pub fn copy_prims(v: &[Prim]) -> (r: Vec<Prim>)
    ensures
        r@ == v@,
{
    let mut out: Vec<Prim> = Vec::new();
    let mut i: usize = 0;
    while i < v.len()
        invariant
            i <= v@.len(),
            out@ == v@.take(i as int),
        decreases v@.len() - i,
    {
        out.push(v[i]);
        assert(v@.take(i + 1) =~= v@.take(i as int).push(v@[i as int]));
        i = i + 1;
    }
    assert(v@.take(i as int) =~= v@);
    out
}

/// The type of the variable that an opcode makes: that of the constant
/// for the four opcodes of constants, a function for `ref.func`.
pub open spec fn spec_created(opcode: u8) -> Option<Prim> {
    if opcode == 0x41 {
        Some(Prim::I32)
    } else if opcode == 0x42 {
        Some(Prim::I64)
    } else if opcode == 0x43 {
        Some(Prim::F32)
    } else if opcode == 0x44 {
        Some(Prim::F64)
    } else if opcode == 0xd2 {
        Some(Prim::Func)
    } else {
        None
    }
}

/// Whether a stack operation is that of a descriptor: it takes and leaves
/// what the descriptor says, and makes a variable where the opcode is one
/// that makes one.
pub open spec fn spec_operation_of(op: StackOperation<ExprSeg>, info: InstrModel) -> bool {
    &&& op.in_types@ == info.in_types
    &&& op.out_types@ == info.out_types
    &&& match spec_created(info.instr) {
        Some(t) => op.special_op == SpecialStackOp::<ExprSeg>::CreateVar(t),
        None => op.special_op is Nothing,
    }
}

impl InstrInfo {
    /// What the instruction does to the stack.
    pub fn get_stack_operation(&self) -> (r: StackOperation<ExprSeg>)
        ensures
            spec_operation_of(r, self@),
    {
        let special_op = if self.instr == 0x41 {
            SpecialStackOp::<ExprSeg>::CreateVar(Prim::I32)
        } else if self.instr == 0x42 {
            SpecialStackOp::<ExprSeg>::CreateVar(Prim::I64)
        } else if self.instr == 0x43 {
            SpecialStackOp::<ExprSeg>::CreateVar(Prim::F32)
        } else if self.instr == 0x44 {
            SpecialStackOp::<ExprSeg>::CreateVar(Prim::F64)
        } else if self.instr == 0xd2 {
            SpecialStackOp::<ExprSeg>::CreateVar(Prim::Func)
        } else {
            SpecialStackOp::<ExprSeg>::Nothing
        };
        StackOperation {
            in_types: copy_prims(self.in_types),
            out_types: copy_prims(self.out_types),
            special_op,
        }
    }
}

/// The descriptor that says what a segment does to the stack: that of a
/// bare opcode, or of the opcode at the head of an instruction.
pub open spec fn spec_acting(s: SegModel) -> Option<InstrModel> {
    match s {
        SegModel::Operation(info) => Some(info),
        SegModel::Instr(segs) => if segs.len() > 0 && segs[0] is Operation {
            Some(segs[0]->Operation_0)
        } else {
            None
        },
        _ => None,
    }
}

/// The operation that takes nothing and leaves nothing.
fn no_operation() -> (r: StackOperation<ExprSeg>)
    ensures
        r.in_types@.len() == 0,
        r.out_types@.len() == 0,
        r.special_op is Nothing,
{
    StackOperation {
        in_types: Vec::new(),
        out_types: Vec::new(),
        special_op: SpecialStackOp::Nothing,
    }
}

impl UsdmSegment for ExprSeg {
    type Type = Prim;

    fn get_stack_operation(&self) -> (r: StackOperation<Self>)
        ensures
            match spec_acting(self@) {
                Some(info) => spec_operation_of(r, info),
                None => r.in_types@.len() == 0 && r.out_types@.len() == 0
                    && r.special_op is Nothing,
            },
    {
        match self {
            ExprSeg::Operation(info) => info.get_stack_operation(),
            ExprSeg::Instr(segs) => {
                proof {
                    lemma_seg_view_instr(*segs);
                }
                if segs.len() == 0 {
                    return no_operation();
                }
                assert(segs_view(segs@)[0] == segs@[0]@);
                match &segs[0] {
                    ExprSeg::Operation(info) => info.get_stack_operation(),
                    _ => no_operation(),
                }
            },
            _ => no_operation(),
        }
    }
}

impl UsdmFrontend for WasmExpr {
    type Type = Prim;

    type Segment = ExprSeg;

    fn len(&self) -> (r: usize)
        ensures
            r == self.expr_string@.len(),
    {
        self.expr_string.len()
    }

    fn segment(&self, i: usize) -> (r: Option<&ExprSeg>)
        ensures
            match r {
                Some(seg) => i < self.expr_string@.len() && *seg == self.expr_string@[i as int],
                None => i >= self.expr_string@.len(),
            },
    {
        if i < self.expr_string.len() {
            Some(&self.expr_string[i])
        } else {
            None
        }
    }
}

/// The number of the signature that the function section names for the
/// function number `func`.
pub open spec fn spec_signature_index(file: &WasmFile, func: int) -> int {
    file.function_section.function_signature_indexes@[func] as int
}

impl WasmFile {
    /// The signature that an import names with its descriptor byte, if
    /// the type section holds it.
    pub fn get_import_sig(&self, import: &WasmImportHeader) -> (r: Option<&WasmFunctionType>)
        ensures
            match r {
                Some(sig) => import.import_type < self.type_section.function_signatures@.len()
                    && *sig == self.type_section.function_signatures@[import.import_type as int],
                None => import.import_type >= self.type_section.function_signatures@.len(),
            },
    {
        let index = import.import_type as usize;
        if index < self.type_section.function_signatures.len() {
            Some(&self.type_section.function_signatures[index])
        } else {
            None
        }
    }

    /// The signature of the function number `func`, if the function
    /// section names one for it that the type section holds.
    pub fn get_func_sig(&self, func: usize) -> (r: Option<&WasmFunctionType>)
        ensures
            match r {
                Some(sig) => {
                    &&& func < self.function_section.function_signature_indexes@.len()
                    &&& self.function_section.function_signature_indexes@[func as int]
                        < self.type_section.function_signatures@.len()
                    &&& *sig == self.type_section.function_signatures@[spec_signature_index(
                        self,
                        func as int,
                    )]
                },
                None => func >= self.function_section.function_signature_indexes@.len()
                    || self.function_section.function_signature_indexes@[func as int]
                    >= self.type_section.function_signatures@.len(),
            },
    {
        if func >= self.function_section.function_signature_indexes.len() {
            return None;
        }
        let func_sig_idx = self.function_section.function_signature_indexes[func] as usize;
        if func_sig_idx < self.type_section.function_signatures.len() {
            Some(&self.type_section.function_signatures[func_sig_idx])
        } else {
            None
        }
    }
}

/// The sizes reckoned for numbers in a row, together.
pub open spec fn spec_depths_len(v: Seq<u32>) -> nat
    decreases v.len(),
{
    if v.len() == 0 {
        0
    } else {
        spec_depths_len(v.drop_last()) + spec_dyn_size(v.last() as i64)
    }
}

/// The length reckoned for a segment of a flat run: 1 for an opcode, the
/// reckoned size for an integer, 4 and 8 for the floats, the sizes of the
/// default and of the depths for a table of branches, the length of its
/// body for a block, and nothing for any other.
pub open spec fn spec_seg_len(s: SegModel) -> nat
    decreases s,
{
    match s {
        SegModel::Operation(info) => 1,
        SegModel::Int(i) => spec_dyn_size(i),
        SegModel::Float32(v) => 4,
        SegModel::Float64(v) => 8,
        SegModel::BrTable(depths, default) => spec_dyn_size(default as i64) + spec_depths_len(
            depths,
        ),
        SegModel::ControlFlow(opener, body, end) => spec_body_len(body),
        _ => 0,
    }
}

/// The length reckoned for segments in a row.
pub open spec fn spec_body_len(v: Seq<SegModel>) -> nat
    decreases v,
{
    if v.len() == 0 {
        0
    } else {
        spec_body_len(v.drop_last()) + spec_seg_len(v.last())
    }
}

fn depths_len(v: &Vec<u32>) -> (r: Option<usize>)
    ensures
        match r {
            Some(n) => n == spec_depths_len(v@),
            None => spec_depths_len(v@) > usize::MAX,
        },
{
    let mut total: usize = 0;
    let mut i: usize = 0;
    assert(v@.take(0) =~= Seq::<u32>::empty());
    while i < v.len()
        invariant
            i <= v@.len(),
            total == spec_depths_len(v@.take(i as int)),
        decreases v@.len() - i,
    {
        proof {
            assert(v@.take(i + 1).drop_last() =~= v@.take(i as int));
            lemma_depths_grow(v@, i + 1);
        }
        match total.checked_add(calc_dyn_size(v[i] as i64)) {
            Some(n) => {
                total = n;
            },
            None => {
                return None;
            },
        }
        i = i + 1;
    }
    assert(v@.take(i as int) =~= v@);
    Some(total)
}

proof fn lemma_depths_grow(v: Seq<u32>, upto: int)
    requires
        0 <= upto <= v.len(),
    ensures
        spec_depths_len(v.take(upto)) <= spec_depths_len(v),
    decreases v.len() - upto,
{
    if upto < v.len() {
        lemma_depths_grow(v, upto + 1);
        assert(v.take(upto + 1).drop_last() =~= v.take(upto));
    } else {
        assert(v.take(upto) =~= v);
    }
}

proof fn lemma_body_grows(v: Seq<SegModel>, upto: int)
    requires
        0 <= upto <= v.len(),
    ensures
        spec_body_len(v.take(upto)) <= spec_body_len(v),
    decreases v.len() - upto,
{
    if upto < v.len() {
        lemma_body_grows(v, upto + 1);
        assert(v.take(upto + 1).drop_last() =~= v.take(upto));
    } else {
        assert(v.take(upto) =~= v);
    }
}

/// The length reckoned for the segments of an expression, or nothing where
/// it is more than a number can hold.
pub fn calculate_body_len(expr: &WasmExpr) -> (r: Option<usize>)
    ensures
        match r {
            Some(n) => n == spec_body_len(expr@),
            None => spec_body_len(expr@) > usize::MAX,
        },
    decreases expr,
{
    let ghost segs = expr@;
    let mut total: usize = 0;
    let mut i: usize = 0;
    assert(segs.take(0) =~= Seq::<SegModel>::empty());
    while i < expr.expr_string.len()
        invariant
            i <= expr.expr_string@.len(),
            segs == expr@,
            segs.len() == expr.expr_string@.len(),
            total == spec_body_len(segs.take(i as int)),
            decreases_to!(expr => expr.expr_string),
        decreases expr.expr_string@.len() - i,
    {
        proof {
            assert(segs.take(i + 1).drop_last() =~= segs.take(i as int));
            assert(segs.take(i + 1).last() == expr.expr_string@[i as int]@);
            lemma_body_grows(segs, i + 1);
            vstd::std_specs::vec::axiom_vec_index_decreases(expr.expr_string, i as int);
        }
        let here: Option<usize> = match &expr.expr_string[i] {
            ExprSeg::Operation(_) => Some(1),
            ExprSeg::Int(v) => Some(calc_dyn_size(*v)),
            ExprSeg::Float32(_) => Some(4),
            ExprSeg::Float64(_) => Some(8),
            ExprSeg::BrTable(tab) => match depths_len(&tab.break_depths) {
                Some(n) => calc_dyn_size(tab.default as i64).checked_add(n),
                None => None,
            },
            ExprSeg::ControlFlow(opener, block, end) => {
                proof {
                    lemma_seg_view_control(*opener, *block, *end);
                }
                calculate_body_len(block)
            },
            _ => Some(0),
        };
        proof {
            let cur = expr.expr_string@[i as int]@;
            assert(match here {
                Some(n) => n == spec_seg_len(cur),
                None => spec_seg_len(cur) > usize::MAX,
            });
            assert(spec_body_len(segs.take(i + 1)) == spec_body_len(segs.take(i as int))
                + spec_seg_len(cur));
        }
        match here {
            Some(n) => match total.checked_add(n) {
                Some(sum) => {
                    total = sum;
                },
                None => {
                    return None;
                },
            },
            None => {
                return None;
            },
        }
        i = i + 1;
    }
    assert(segs.take(i as int) =~= segs);
    Some(total)
}

/// The entries of the views of the sections of a module are the views of
/// the entries.
pub proof fn lemma_views_index(file: &WasmFile)
    ensures
        file@.type_section.entries == views(file.type_section.function_signatures@),
        forall|i: int|
            0 <= i < file.type_section.function_signatures@.len()
                ==> #[trigger] file@.type_section.entries[i]
                == file.type_section.function_signatures@[i]@,
        forall|i: int|
            0 <= i < file.import_section_header.imports@.len()
                ==> #[trigger] file@.import_section_header.entries[i]
                == file.import_section_header.imports@[i]@,
        file@.function_section.entries == file.function_section.function_signature_indexes@,
        file@.table_section.entries == file.table_section.tables@,
        file@.memory_section.entries == file.memory_section.memories@,
        forall|i: int|
            0 <= i < file.global_section.globals@.len()
                ==> #[trigger] file@.global_section.entries[i]
                == file.global_section.globals@[i]@,
        forall|i: int|
            0 <= i < file.export_section.exports@.len()
                ==> #[trigger] file@.export_section.entries[i]
                == file.export_section.exports@[i]@,
        forall|i: int|
            0 <= i < file.elem_section.elems@.len() ==> #[trigger] file@.elem_section.entries[i]
                == file.elem_section.elems@[i]@,
        forall|i: int|
            0 <= i < file.code_section.functions@.len() ==> #[trigger] file@.code_section.entries[i]
                == file.code_section.functions@[i]@,
        forall|i: int|
            0 <= i < file.data_section.data_segs@.len() ==> #[trigger] file@.data_section.entries[i]
                == file.data_section.data_segs@[i]@,
        file@.import_section_header.entries.len() == file.import_section_header.imports@.len(),
        file@.global_section.entries.len() == file.global_section.globals@.len(),
        file@.export_section.entries.len() == file.export_section.exports@.len(),
        file@.elem_section.entries.len() == file.elem_section.elems@.len(),
        file@.code_section.entries.len() == file.code_section.functions@.len(),
        file@.data_section.entries.len() == file.data_section.data_segs@.len(),
{
}

/// The name of a tag.
pub open spec fn spec_prim_name(t: Prim) -> &'static str {
    match t {
        Prim::Void => "Void",
        Prim::I32 => "I32",
        Prim::I64 => "I64",
        Prim::F32 => "F32",
        Prim::F64 => "F64",
        Prim::Local => "Local",
        Prim::Global => "Global",
        Prim::Generic => "Generic",
        Prim::Func => "Func",
    }
}

/// The names of tags, in order.
pub open spec fn spec_prim_names(v: Seq<Prim>) -> Seq<Seq<char>> {
    Seq::new(v.len(), |i: int| spec_prim_name(v[i])@)
}

/// The names of tags with a comma and a blank between them.
pub open spec fn spec_prim_list(v: Seq<Prim>) -> Seq<char> {
    crate::text::spec_join(spec_prim_names(v), v.len(), ", "@)
}

/// The character of a hexadecimal digit.
pub open spec fn spec_hex_digit(d: nat) -> char {
    if d < 10 {
        crate::text::spec_digit(d)
    } else if d == 10 {
        'a'
    } else if d == 11 {
        'b'
    } else if d == 12 {
        'c'
    } else if d == 13 {
        'd'
    } else if d == 14 {
        'e'
    } else {
        'f'
    }
}

/// A byte in hexadecimal digits behind `0x`, without a leading zero.
pub open spec fn spec_hex_byte(b: u8) -> Seq<char> {
    "0x"@ + (if b >= 16 {
        seq![spec_hex_digit((b / 16) as nat), spec_hex_digit((b % 16) as nat)]
    } else {
        seq![spec_hex_digit(b as nat)]
    })
}

/// A descriptor in one line: the opcode in hexadecimal, a colon, the
/// mnemonic, the immediates in square brackets where there are any, what
/// is taken from the stack in round brackets, and behind an arrow what is
/// left there, where anything is.
pub open spec fn spec_describe(info: InstrModel) -> Seq<char> {
    spec_hex_byte(info.instr) + ": "@ + info.name + (if info.constants.len() != 0 {
        "["@ + spec_prim_list(info.constants) + "]"@
    } else {
        Seq::empty()
    }) + "("@ + spec_prim_list(info.in_types) + ")"@ + (if info.out_types.len() != 0 {
        " -> "@ + spec_prim_list(info.out_types)
    } else {
        Seq::empty()
    })
}

fn hex_digit(d: u8) -> (r: char)
    requires
        d < 16,
    ensures
        r == spec_hex_digit(d as nat),
{
    if d == 0 {
        '0'
    } else if d == 1 {
        '1'
    } else if d == 2 {
        '2'
    } else if d == 3 {
        '3'
    } else if d == 4 {
        '4'
    } else if d == 5 {
        '5'
    } else if d == 6 {
        '6'
    } else if d == 7 {
        '7'
    } else if d == 8 {
        '8'
    } else if d == 9 {
        '9'
    } else if d == 10 {
        'a'
    } else if d == 11 {
        'b'
    } else if d == 12 {
        'c'
    } else if d == 13 {
        'd'
    } else if d == 14 {
        'e'
    } else {
        'f'
    }
}

fn push_prim_list(out: &mut Vec<char>, v: &[Prim])
    ensures
        final(out)@ == old(out)@ + spec_prim_list(v@),
{
    let mut names: Vec<Vec<char>> = Vec::new();
    let mut i: usize = 0;
    while i < v.len()
        invariant
            i <= v@.len(),
            crate::text::texts_view(names@) == spec_prim_names(v@).take(i as int),
        decreases v@.len() - i,
    {
        let name = crate::text::to_chars(
            match v[i] {
                Prim::Void => "Void",
                Prim::I32 => "I32",
                Prim::I64 => "I64",
                Prim::F32 => "F32",
                Prim::F64 => "F64",
                Prim::Local => "Local",
                Prim::Global => "Global",
                Prim::Generic => "Generic",
                Prim::Func => "Func",
            },
        );
        assert(crate::text::texts_view(names@.push(name)) =~= crate::text::texts_view(names@).push(
            name@,
        ));
        assert(spec_prim_names(v@).take(i + 1) =~= spec_prim_names(v@).take(i as int).push(
            name@,
        ));
        names.push(name);
        i = i + 1;
    }
    assert(spec_prim_names(v@).take(i as int) =~= spec_prim_names(v@));
    crate::text::push_joined(out, &names, ", ");
}

impl InstrInfo {
    /// The descriptor in one line.
    pub fn describe(&self) -> (r: String)
        ensures
            r@ == spec_describe(self@),
    {
        let mut out: Vec<char> = Vec::new();
        crate::text::push_text(&mut out, "0x");
        if self.instr >= 16 {
            out.push(hex_digit(self.instr / 16));
            out.push(hex_digit(self.instr % 16));
        } else {
            out.push(hex_digit(self.instr));
        }
        assert(out@ =~= spec_hex_byte(self.instr));
        crate::text::push_text(&mut out, ": ");
        crate::text::push_text(&mut out, self.name);
        if self.constants.len() != 0 {
            crate::text::push_text(&mut out, "[");
            push_prim_list(&mut out, self.constants);
            crate::text::push_text(&mut out, "]");
        }
        crate::text::push_text(&mut out, "(");
        push_prim_list(&mut out, self.in_types);
        crate::text::push_text(&mut out, ")");
        if self.out_types.len() != 0 {
            crate::text::push_text(&mut out, " -> ");
            push_prim_list(&mut out, self.out_types);
        }
        assert(out@ =~= spec_describe(self@));
        crate::text::from_chars(&out)
    }
}

} // verus!
