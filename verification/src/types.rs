use vstd::prelude::*;

verus! {

/// Which generation of the classic container format a file uses, fixed once
/// from the file's magic bytes.
#[derive(Copy, Clone, Debug, PartialEq, Eq, Structural)]
pub enum Version {
    CDF1,
    CDF2,
    CDF5,
}

/// Element type of a variable or attribute value.
#[derive(Copy, Clone, Debug, PartialEq, Eq, Structural)]
pub enum Type {
    I8,
    U8,
    Char,
    I16,
    U16,
    I32,
    U32,
    I64,
    U64,
    F32,
    F64,
}

/// Why a decode failed. Every failure is fatal to the whole decode: no partial
/// header is ever returned.
#[derive(Copy, Clone, Debug, PartialEq, Eq, Structural)]
pub enum DecodeError {
    /// The buffer does not start with the magic bytes "CDF".
    BadMagic,
    /// The version byte after the magic is not 1, 2 or 5.
    UnknownVersion,
    /// A type tag is not one of the eleven recognized values.
    UnknownType,
    /// A declared length or count exceeds the remaining buffer.
    Truncated,
    /// A name's bytes are not valid UTF-8 text.
    InvalidUtf8,
    /// Neither the absent-list marker nor the list's tag constant matched at a
    /// list boundary.
    MalformedListMarker,
}

impl Type {
    /// Size in bytes of one element of this type.
    pub open spec fn spec_byte_size(self) -> usize {
        match self {
            Type::I8 | Type::U8 | Type::Char => 1usize,
            Type::I16 | Type::U16 => 2usize,
            Type::I32 | Type::U32 | Type::F32 => 4usize,
            Type::I64 | Type::U64 | Type::F64 => 8usize,
        }
    }

    /// Size in bytes of one element of this type.
    #[verifier::when_used_as_spec(spec_byte_size)]
    pub fn byte_size(self) -> (r: usize)
        ensures
            r == self.spec_byte_size(),
    {
        match self {
            Type::I8 | Type::U8 | Type::Char => 1,
            Type::I16 | Type::U16 => 2,
            Type::I32 | Type::U32 | Type::F32 => 4,
            Type::I64 | Type::U64 | Type::F64 => 8,
        }
    }
}

/// A named dimension; a length of 0 denotes the unlimited/record dimension.
#[derive(Clone, Debug)]
pub struct Dimension {
    pub name: String,
    pub len: u64,
}

/// A named attribute; its value bytes are kept opaque, tagged with the
/// declared element type.
#[derive(Clone, Debug)]
pub struct Attribute {
    pub name: String,
    pub typ: Type,
    pub data: Vec<u8>,
}

/// A variable: dimension references (indices into the file's dimension list,
/// not checked against it at decode time), its own attributes, element type,
/// per-record padded byte size, and the absolute file offset of its data.
#[derive(Clone, Debug)]
pub struct Variable {
    pub name: String,
    pub dimids: Vec<u64>,
    pub atts: Option<Vec<Attribute>>,
    pub typ: Type,
    pub vsize: u64,
    pub begin: u64,
}

/// The decoded header. `numrecs` is `None` when the file carries the
/// "record count unknown" sentinel. Each list is independently either wholly
/// absent (`None`) or present with zero or more entries.
#[derive(Clone, Debug)]
pub struct FileHeader {
    pub version: Version,
    pub numrecs: Option<u64>,
    pub dim_list: Option<Vec<Dimension>>,
    pub gatt_list: Option<Vec<Attribute>>,
    pub var_list: Option<Vec<Variable>>,
}

/// A decoded header together with the raw bytes that follow it: the file's
/// data section.
#[derive(Clone, Debug)]
pub struct File {
    pub header: FileHeader,
    pub data: Vec<u8>,
}

/// Raw bytes of one variable's data block.
#[derive(Clone, Debug)]
pub struct Data(pub Vec<u8>);

/// Mathematical value of a decoded dimension.
#[verifier::ext_equal]
pub ghost struct DimensionV {
    pub name: Seq<char>,
    pub len: u64,
}

/// Mathematical value of a decoded attribute.
#[verifier::ext_equal]
pub ghost struct AttributeV {
    pub name: Seq<char>,
    pub typ: Type,
    pub data: Seq<u8>,
}

/// Mathematical value of a decoded variable.
#[verifier::ext_equal]
pub ghost struct VariableV {
    pub name: Seq<char>,
    pub dimids: Seq<u64>,
    pub atts: Option<Seq<AttributeV>>,
    pub typ: Type,
    pub vsize: u64,
    pub begin: u64,
}

/// Mathematical value of a decoded header.
#[verifier::ext_equal]
pub ghost struct FileHeaderV {
    pub version: Version,
    pub numrecs: Option<u64>,
    pub dim_list: Option<Seq<DimensionV>>,
    pub gatt_list: Option<Seq<AttributeV>>,
    pub var_list: Option<Seq<VariableV>>,
}

impl DeepView for Dimension {
    type V = DimensionV;

    open spec fn deep_view(&self) -> DimensionV {
        DimensionV { name: self.name@, len: self.len }
    }
}

impl DeepView for Attribute {
    type V = AttributeV;

    open spec fn deep_view(&self) -> AttributeV {
        AttributeV { name: self.name@, typ: self.typ, data: self.data@ }
    }
}

impl DeepView for Variable {
    type V = VariableV;

    open spec fn deep_view(&self) -> VariableV {
        VariableV {
            name: self.name@,
            dimids: self.dimids@,
            atts: self.atts.deep_view(),
            typ: self.typ,
            vsize: self.vsize,
            begin: self.begin,
        }
    }
}

impl DeepView for FileHeader {
    type V = FileHeaderV;

    open spec fn deep_view(&self) -> FileHeaderV {
        FileHeaderV {
            version: self.version,
            numrecs: self.numrecs,
            dim_list: self.dim_list.deep_view(),
            gatt_list: self.gatt_list.deep_view(),
            var_list: self.var_list.deep_view(),
        }
    }
}

} // verus!
