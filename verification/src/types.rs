//! The data model of a decoded module: types, instructions and the
//! declarations of each section, with the mathematical view of each.
use vstd::prelude::*;

verus! {

/// The four numeric value types.
#[derive(Clone, Copy, PartialEq, Eq, Structural, Debug)]
pub enum ValType {
    I32,
    I64,
    F32,
    F64,
}

/// The result type of a block: nothing, or one value.
#[derive(Clone, Copy, PartialEq, Eq, Structural, Debug)]
pub enum BlockType {
    Empty,
    Value(ValType),
}

/// A function signature.
#[derive(Debug)]
pub struct FuncType {
    pub params: Vec<ValType>,
    pub results: Vec<ValType>,
}

/// A function signature as sequences.
pub struct FuncTypeView {
    pub params: Seq<ValType>,
    pub results: Seq<ValType>,
}

impl View for FuncType {
    type V = FuncTypeView;

    open spec fn view(&self) -> FuncTypeView {
        FuncTypeView { params: self.params@, results: self.results@ }
    }
}

/// Size limits of a memory (in pages) or a table (in entries).
#[derive(Clone, Copy, PartialEq, Eq, Structural, Debug)]
pub struct Limits {
    pub min: u32,
    pub max: Option<u32>,
}

/// Type and mutability of a global.
#[derive(Clone, Copy, PartialEq, Eq, Structural, Debug)]
pub struct GlobalType {
    pub ty: ValType,
    pub mutable: bool,
}

/// A constant expression: one constant, given by its bits, or the value of
/// a global.
#[derive(Clone, Copy, PartialEq, Eq, Structural, Debug)]
pub enum ConstExpr {
    I32(i32),
    I64(i64),
    F32(u32),
    F64(u64),
    GlobalGet(u32),
}

/// A global defined by the module.
#[derive(Clone, Copy, PartialEq, Eq, Structural, Debug)]
pub struct Global {
    pub ty: GlobalType,
    pub init: ConstExpr,
}

/// The four kinds of things a module imports and exports.
#[derive(Clone, Copy, PartialEq, Eq, Structural, Debug)]
pub enum ExternKind {
    Func,
    Table,
    Memory,
    Global,
}

/// What an import asks for.
#[derive(Clone, Copy, PartialEq, Eq, Structural, Debug)]
pub enum ImportDesc {
    Func(u32),
    Table(Limits),
    Memory(Limits),
    Global(GlobalType),
}

/// A required linkage slot: the two-level name and what is expected there.
#[derive(Debug)]
pub struct Import {
    pub module: Vec<u8>,
    pub name: Vec<u8>,
    pub desc: ImportDesc,
}

/// An import with its names as sequences.
pub struct ImportView {
    pub module: Seq<u8>,
    pub name: Seq<u8>,
    pub desc: ImportDesc,
}

impl View for Import {
    type V = ImportView;

    open spec fn view(&self) -> ImportView {
        ImportView { module: self.module@, name: self.name@, desc: self.desc }
    }
}

/// An entry of the export table.
#[derive(Debug)]
pub struct Export {
    pub name: Vec<u8>,
    pub kind: ExternKind,
    pub index: u32,
}

/// An export with its name as a sequence.
pub struct ExportView {
    pub name: Seq<u8>,
    pub kind: ExternKind,
    pub index: u32,
}

impl View for Export {
    type V = ExportView;

    open spec fn view(&self) -> ExportView {
        ExportView { name: self.name@, kind: self.kind, index: self.index }
    }
}

/// Function references written into a table at instantiation.
#[derive(Debug)]
pub struct Element {
    pub table: u32,
    pub offset: ConstExpr,
    pub init: Vec<u32>,
}

/// An element segment with its functions as a sequence.
pub struct ElementView {
    pub table: u32,
    pub offset: ConstExpr,
    pub init: Seq<u32>,
}

impl View for Element {
    type V = ElementView;

    open spec fn view(&self) -> ElementView {
        ElementView { table: self.table, offset: self.offset, init: self.init@ }
    }
}

/// Bytes written into a memory at instantiation.
#[derive(Debug)]
pub struct Data {
    pub memory: u32,
    pub offset: ConstExpr,
    pub init: Vec<u8>,
}

/// A data segment with its bytes as a sequence.
pub struct DataView {
    pub memory: u32,
    pub offset: ConstExpr,
    pub init: Seq<u8>,
}

impl View for Data {
    type V = DataView;

    open spec fn view(&self) -> DataView {
        DataView { memory: self.memory, offset: self.offset, init: self.init@ }
    }
}

/// One instruction. Structured control is kept flat: `Block`, `Loop` and
/// `If` open a region that the matching `End` closes. The labels of a
/// `BrTable` are `count` entries of the function's label pool starting at
/// `first`, followed by the default label. Instructions without immediate
/// operands other than those listed are `Numeric`, named by their opcode.
#[derive(Clone, Copy, PartialEq, Eq, Structural, Debug)]
pub enum Instr {
    Unreachable,
    Nop,
    Block(BlockType),
    Loop(BlockType),
    If(BlockType),
    Else,
    End,
    Br(u32),
    BrIf(u32),
    BrTable { first: u32, count: u32 },
    Return,
    Call(u32),
    CallIndirect(u32),
    Drop,
    Select,
    LocalGet(u32),
    LocalSet(u32),
    LocalTee(u32),
    GlobalGet(u32),
    GlobalSet(u32),
    Load { op: u8, align: u32, offset: u32 },
    Store { op: u8, align: u32, offset: u32 },
    MemorySize,
    MemoryGrow,
    I32Const(i32),
    I64Const(i64),
    F32Const(u32),
    F64Const(u64),
    Numeric(u8),
}

/// A run of locals of one type.
#[derive(Clone, Copy, PartialEq, Eq, Structural, Debug)]
pub struct LocalGroup {
    pub count: u32,
    pub ty: ValType,
}

/// A function body.
#[derive(Debug)]
pub struct Code {
    pub locals: Vec<LocalGroup>,
    pub instrs: Vec<Instr>,
    pub labels: Vec<u32>,
}

/// A function body as sequences.
pub struct CodeView {
    pub locals: Seq<LocalGroup>,
    pub instrs: Seq<Instr>,
    pub labels: Seq<u32>,
}

impl View for Code {
    type V = CodeView;

    open spec fn view(&self) -> CodeView {
        CodeView { locals: self.locals@, instrs: self.instrs@, labels: self.labels@ }
    }
}

/// The views of the elements of a sequence.
pub open spec fn views<T: View>(s: Seq<T>) -> Seq<T::V> {
    Seq::new(s.len(), |i: int| s[i]@)
}

/// The views of a sequence with one more element.
pub proof fn lemma_views_push<T: View>(s: Seq<T>, x: T)
    ensures
        views(s.push(x)) == views(s).push(x@),
{
    assert(views(s.push(x)) =~= views(s).push(x@));
}

/// The empty sequence has no views.
pub proof fn lemma_views_empty<T: View>()
    ensures
        views(Seq::<T>::empty()) == Seq::<T::V>::empty(),
{
    assert(views(Seq::<T>::empty()) =~= Seq::<T::V>::empty());
}

/// A decoded module that has not been validated yet.
#[derive(Debug)]
pub struct Draft {
    pub types: Vec<FuncType>,
    pub imports: Vec<Import>,
    pub funcs: Vec<u32>,
    pub tables: Vec<Limits>,
    pub mems: Vec<Limits>,
    pub globals: Vec<Global>,
    pub exports: Vec<Export>,
    pub start: Option<u32>,
    pub elems: Vec<Element>,
    pub codes: Vec<Code>,
    pub datas: Vec<Data>,
}

/// A decoded module as sequences.
pub struct DraftView {
    pub types: Seq<FuncTypeView>,
    pub imports: Seq<ImportView>,
    pub funcs: Seq<u32>,
    pub tables: Seq<Limits>,
    pub mems: Seq<Limits>,
    pub globals: Seq<Global>,
    pub exports: Seq<ExportView>,
    pub start: Option<u32>,
    pub elems: Seq<ElementView>,
    pub codes: Seq<CodeView>,
    pub datas: Seq<DataView>,
}

impl View for Draft {
    type V = DraftView;

    open spec fn view(&self) -> DraftView {
        DraftView {
            types: views(self.types@),
            imports: views(self.imports@),
            funcs: self.funcs@,
            tables: self.tables@,
            mems: self.mems@,
            globals: self.globals@,
            exports: views(self.exports@),
            start: self.start,
            elems: views(self.elems@),
            codes: views(self.codes@),
            datas: views(self.datas@),
        }
    }
}

/// The module without any section.
pub open spec fn empty_draft() -> DraftView {
    DraftView {
        types: Seq::empty(),
        imports: Seq::empty(),
        funcs: Seq::empty(),
        tables: Seq::empty(),
        mems: Seq::empty(),
        globals: Seq::empty(),
        exports: Seq::empty(),
        start: None,
        elems: Seq::empty(),
        codes: Seq::empty(),
        datas: Seq::empty(),
    }
}

} // verus!
