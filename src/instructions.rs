use vstd::prelude::*;

verus! {

/// A raw run of bytes, as it appears in a script.
pub type ByteSequence = Vec<u8>;

/// The key of a memory cell or of a function definition.
pub type MemoryLocation = ByteSequence;

// Basic instructions
pub const END: u8 = 0;

// Type tags
pub const TYPE_VOID: u8 = 10;
pub const TYPE_BYTE: u8 = 11;
pub const TYPE_BOOL: u8 = 12;
pub const TYPE_INT: u8 = 13;
pub const TYPE_FLOAT: u8 = 14;
pub const TYPE_STRING: u8 = 15;
pub const TYPE_UID: u8 = 16;
pub const TYPE_FUNC: u8 = 17;
pub const TYPE_TABLE: u8 = 18;
pub const TYPE_STRUCT: u8 = 19;

// Operand sources
pub const ACCESS_LITERAL: u8 = 20;  // TYPE_* + data
pub const ACCESS_MEMORY: u8 = 21;  // Location (string)

// Memory actions
pub const STORE_MEMORY: u8 = 30;  // Location (string) + ACCESS_*
pub const FREE_MEMORY: u8 = 31;  // Location (string)

// Function actions
pub const DECLARE_FUNCTION: u8 = 40;  // Location + arg count (u8) + args (TYPE_* + string) + return (TYPE_*)
pub const CALL_FUNCTION: u8 = 41;  // Location + arg count (u8) + args (ACCESS_*) + result location (string)

#[derive(Debug, Clone, Copy, PartialEq, Eq, Structural)]
pub enum DataType {
    Void,
    Byte,
    Bool,
    Int,
    Float,
    String,
    UID,
    Func,
    Table,
    Struct,
}

/// The wire tag of each data type.
pub open spec fn tag_of(ty: DataType) -> u8 {
    match ty {
        DataType::Void => TYPE_VOID,
        DataType::Byte => TYPE_BYTE,
        DataType::Bool => TYPE_BOOL,
        DataType::Int => TYPE_INT,
        DataType::Float => TYPE_FLOAT,
        DataType::String => TYPE_STRING,
        DataType::UID => TYPE_UID,
        DataType::Func => TYPE_FUNC,
        DataType::Table => TYPE_TABLE,
        DataType::Struct => TYPE_STRUCT,
    }
}

/// The data type that a wire tag selects, if any.
pub open spec fn type_of_tag(b: u8) -> Option<DataType> {
    if TYPE_VOID <= b <= TYPE_STRUCT {
        Some(
            if b == TYPE_VOID {
                DataType::Void
            } else if b == TYPE_BYTE {
                DataType::Byte
            } else if b == TYPE_BOOL {
                DataType::Bool
            } else if b == TYPE_INT {
                DataType::Int
            } else if b == TYPE_FLOAT {
                DataType::Float
            } else if b == TYPE_STRING {
                DataType::String
            } else if b == TYPE_UID {
                DataType::UID
            } else if b == TYPE_FUNC {
                DataType::Func
            } else if b == TYPE_TABLE {
                DataType::Table
            } else {
                DataType::Struct
            },
        )
    } else {
        None
    }
}

/// Fixed payload width of a tag; `None` where the width varies or is not defined.
pub open spec fn spec_fixed_width(ty: DataType) -> Option<nat> {
    match ty {
        DataType::Void => Some(0),
        DataType::Byte | DataType::Bool => Some(1),
        DataType::Int | DataType::Float => Some(4),
        _ => None,
    }
}

impl DataType {
    /// The number of payload bytes a value of this type carries, where that is fixed.
    pub fn fixed_width(&self) -> (r: Option<usize>)
        ensures
            r matches Some(w) ==> spec_fixed_width(*self) == Some(w as nat),
            r is None ==> spec_fixed_width(*self) is None,
    {
        match self {
            DataType::Void => Some(0),
            DataType::Byte | DataType::Bool => Some(1),
            DataType::Int | DataType::Float => Some(4),
            _ => None,
        }
    }

    /// The wire tag of this type.
    pub fn tag(&self) -> (r: u8)
        ensures
            r == tag_of(*self),
            type_of_tag(r) == Some(*self),
    {
        match self {
            DataType::Void => TYPE_VOID,
            DataType::Byte => TYPE_BYTE,
            DataType::Bool => TYPE_BOOL,
            DataType::Int => TYPE_INT,
            DataType::Float => TYPE_FLOAT,
            DataType::String => TYPE_STRING,
            DataType::UID => TYPE_UID,
            DataType::Func => TYPE_FUNC,
            DataType::Table => TYPE_TABLE,
            DataType::Struct => TYPE_STRUCT,
        }
    }
}

/// A tagged value in the abstract: its type and its payload bytes.
pub struct StoredDataView {
    pub ty: DataType,
    pub data: Seq<u8>,
}

/// An operand in the abstract.
pub enum AccessDataView {
    Literal(StoredDataView),
    Memory(Seq<u8>),
}

pub struct FunctionArgumentView {
    pub ty: DataType,
    pub location: Seq<u8>,
}

pub struct DeclareFunctionView {
    pub location: Seq<u8>,
    pub arg_count: u8,
    pub args: Seq<FunctionArgumentView>,
    pub return_ty: DataType,
    pub statements: Seq<()>,
}

pub struct CallFunctionView {
    pub location: Seq<u8>,
    pub arg_count: u8,
    pub args: Seq<AccessDataView>,
    pub result_location: Seq<u8>,
}

/// An action in the abstract.
pub enum ActionView {
    StoreMemory { location: Seq<u8>, data: AccessDataView },
    FreeMemory(Seq<u8>),
    DeclareFunction(DeclareFunctionView),
    CallFunction(CallFunctionView),
}

#[derive(Debug)]
pub enum Action {
    StoreMemory(StoreMemory),
    FreeMemory(FreeMemory),
    DeclareFunction(DeclareFunction),
    CallFunction(CallFunction),
}

#[derive(Debug)]
pub struct Literal {
    pub ty: DataType,
    pub data: ByteSequence,
}

#[derive(Debug)]
pub struct AccessLiteral(pub Literal);

#[derive(Debug)]
pub struct AccessMemory(pub MemoryLocation);

#[derive(Debug, Clone)]
pub struct StoredData {
    pub ty: DataType,
    pub data: ByteSequence,
}

#[derive(Debug)]
pub enum AccessData {
    Literal(AccessLiteral),
    Memory(AccessMemory),
}

#[derive(Debug)]
pub struct StoreMemory {
    pub location: MemoryLocation,
    pub data: AccessData,
}

#[derive(Debug)]
pub struct FreeMemory(pub MemoryLocation);

#[derive(Debug)]
pub struct FunctionArgument {
    pub ty: DataType,
    pub location: MemoryLocation,
}

#[derive(Debug)]
pub struct DeclareFunction {
    pub location: MemoryLocation,
    pub arg_count: u8,
    pub args: Vec<FunctionArgument>,
    pub return_ty: DataType,
    pub statements: Vec<()>,
}

#[derive(Debug)]
pub struct CallFunction {
    pub location: MemoryLocation,
    pub arg_count: u8,
    pub args: Vec<AccessData>,
    pub result_location: MemoryLocation,
}

impl View for Literal {
    type V = StoredDataView;

    open spec fn view(&self) -> StoredDataView {
        StoredDataView { ty: self.ty, data: self.data@ }
    }
}

impl View for StoredData {
    type V = StoredDataView;

    open spec fn view(&self) -> StoredDataView {
        StoredDataView { ty: self.ty, data: self.data@ }
    }
}

impl View for AccessLiteral {
    type V = StoredDataView;

    open spec fn view(&self) -> StoredDataView {
        self.0@
    }
}

impl View for AccessMemory {
    type V = Seq<u8>;

    open spec fn view(&self) -> Seq<u8> {
        self.0@
    }
}

impl View for AccessData {
    type V = AccessDataView;

    open spec fn view(&self) -> AccessDataView {
        match self {
            AccessData::Literal(a) => AccessDataView::Literal(a.0@),
            AccessData::Memory(m) => AccessDataView::Memory(m.0@),
        }
    }
}

impl View for FunctionArgument {
    type V = FunctionArgumentView;

    open spec fn view(&self) -> FunctionArgumentView {
        FunctionArgumentView { ty: self.ty, location: self.location@ }
    }
}

impl View for DeclareFunction {
    type V = DeclareFunctionView;

    open spec fn view(&self) -> DeclareFunctionView {
        DeclareFunctionView {
            location: self.location@,
            arg_count: self.arg_count,
            args: self.args@.map_values(|a: FunctionArgument| a@),
            return_ty: self.return_ty,
            statements: self.statements@,
        }
    }
}

impl View for CallFunction {
    type V = CallFunctionView;

    open spec fn view(&self) -> CallFunctionView {
        CallFunctionView {
            location: self.location@,
            arg_count: self.arg_count,
            args: self.args@.map_values(|a: AccessData| a@),
            result_location: self.result_location@,
        }
    }
}

impl View for Action {
    type V = ActionView;

    open spec fn view(&self) -> ActionView {
        match self {
            Action::StoreMemory(s) => ActionView::StoreMemory { location: s.location@, data: s.data@ },
            Action::FreeMemory(f) => ActionView::FreeMemory(f.0@),
            Action::DeclareFunction(d) => ActionView::DeclareFunction(d@),
            Action::CallFunction(c) => ActionView::CallFunction(c@),
        }
    }
}

/// A byte-for-byte copy of a byte run.
pub fn copy_bytes(b: &[u8]) -> (r: Vec<u8>)
    ensures
        r@ == b@,
{
    vstd::slice::slice_to_vec(b)
}

impl StoredData {
    /// The null value: `Void` with no payload.
    pub fn null() -> (r: StoredData)
        ensures
            r@ == (StoredDataView { ty: DataType::Void, data: Seq::empty() }),
    {
        StoredData { ty: DataType::Void, data: Vec::new() }
    }

    /// An independent copy of this value.
    pub fn copy(&self) -> (r: StoredData)
        ensures
            r@ == self@,
    {
        StoredData { ty: self.ty, data: copy_bytes(self.data.as_slice()) }
    }
}

impl Literal {
    /// The stored value that this literal denotes.
    pub fn to_stored(&self) -> (r: StoredData)
        ensures
            r@ == self@,
    {
        StoredData { ty: self.ty, data: copy_bytes(self.data.as_slice()) }
    }
}

} // verus!
