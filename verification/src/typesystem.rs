//! The catalog of built-in scalar types, the predicates that classify a type,
//! and the rule that picks the result type of mixed arithmetic.

use vstd::prelude::*;
use crate::ast::{view_each, Dimension, Statement, StatementView};

verus! {

/// The number of characters of a `STRING` that declares no length.
pub const DEFAULT_STRING_LEN: u32 = 80;

/// The size in bits of `REAL`.
pub const REAL_SIZE: u32 = 32;

/// The size in bits of `LREAL`.
pub const LREAL_SIZE: u32 = 64;

/// What is known of a type: its kind and the figures that belong to the kind.
#[derive(Debug, PartialEq)]
pub enum DataTypeInformation {
    Struct { name: String, member_names: Vec<String> },
    Array { name: String, inner_type_name: String, dimensions: Vec<Dimension> },
    Integer { name: String, signed: bool, size: u32 },
    Float { name: String, size: u32 },
    String { size: u32 },
    Alias { name: String, referenced_type: String },
    Void,
}

/// A named type with the initial value of its declaration, if it has one.
#[derive(Debug, PartialEq)]
pub struct DataType {
    pub name: String,
    /// the initial value defined on the TYPE-declaration
    pub initial_value: Option<Statement>,
    pub information: DataTypeInformation,
}

/// The model of a [`DataTypeInformation`].
pub enum DataTypeInformationView {
    Struct { name: Seq<char>, member_names: Seq<Seq<char>> },
    Array { name: Seq<char>, inner_type_name: Seq<char>, dimensions: Seq<Dimension> },
    Integer { name: Seq<char>, signed: bool, size: u32 },
    Float { name: Seq<char>, size: u32 },
    String { size: u32 },
    Alias { name: Seq<char>, referenced_type: Seq<char> },
    Void,
}

/// The model of a [`DataType`].
pub struct DataTypeView {
    pub name: Seq<char>,
    pub initial_value: Option<StatementView>,
    pub information: DataTypeInformationView,
}

impl View for DataTypeInformation {
    type V = DataTypeInformationView;

    open spec fn view(&self) -> DataTypeInformationView {
        match self {
            DataTypeInformation::Struct { name, member_names } => DataTypeInformationView::Struct {
                name: name@,
                member_names: view_each(member_names@),
            },
            DataTypeInformation::Array {
                name,
                inner_type_name,
                dimensions,
            } => DataTypeInformationView::Array {
                name: name@,
                inner_type_name: inner_type_name@,
                dimensions: dimensions@,
            },
            DataTypeInformation::Integer { name, signed, size } => DataTypeInformationView::Integer {
                name: name@,
                signed: *signed,
                size: *size,
            },
            DataTypeInformation::Float { name, size } => DataTypeInformationView::Float {
                name: name@,
                size: *size,
            },
            DataTypeInformation::String { size } => DataTypeInformationView::String { size: *size },
            DataTypeInformation::Alias { name, referenced_type } => DataTypeInformationView::Alias {
                name: name@,
                referenced_type: referenced_type@,
            },
            DataTypeInformation::Void => DataTypeInformationView::Void,
        }
    }
}

impl View for DataType {
    type V = DataTypeView;

    open spec fn view(&self) -> DataTypeView {
        DataTypeView {
            name: self.name@,
            initial_value: match self.initial_value {
                Some(statement) => Some(statement@),
                None => None,
            },
            information: self.information@,
        }
    }
}

impl DataTypeInformationView {
    /// The name of the type; a string type and the void type have fixed names.
    pub open spec fn name(self) -> Seq<char> {
        match self {
            DataTypeInformationView::Struct { name, .. } => name,
            DataTypeInformationView::Array { name, .. } => name,
            DataTypeInformationView::Integer { name, .. } => name,
            DataTypeInformationView::Float { name, .. } => name,
            DataTypeInformationView::String { .. } => "String"@,
            DataTypeInformationView::Alias { name, .. } => name,
            DataTypeInformationView::Void => "Void"@,
        }
    }

    /// Whether the type is an integer type.
    pub open spec fn is_int(self) -> bool {
        self is Integer
    }

    /// Whether the type is a floating-point type.
    pub open spec fn is_float(self) -> bool {
        self is Float
    }

    /// Whether the type is an integer or a floating-point type.
    pub open spec fn is_numerical(self) -> bool {
        self.is_int() || self.is_float()
    }

    /// Whether the type has a size: every type but an array and an alias.
    pub open spec fn has_size(self) -> bool {
        !(self is Array) && !(self is Alias)
    }

    /// The size of the type: the bits of a number, the characters of a string
    /// with its terminator, and 0 for a struct and for the void type.
    pub open spec fn size(self) -> u32
        recommends
            self.has_size(),
    {
        match self {
            DataTypeInformationView::Integer { size, .. } => size,
            DataTypeInformationView::Float { size, .. } => size,
            DataTypeInformationView::String { size } => size,
            _ => 0,
        }
    }

    /// The rank by which two numbers of one nature are compared: a signed
    /// integer ranks one above the unsigned integer of its size, and every
    /// float ranks a thousand above its size.
    pub open spec fn rank(self) -> int
        recommends
            self.is_numerical(),
    {
        match self {
            DataTypeInformationView::Integer { signed, size, .. } => if signed {
                size + 1
            } else {
                size as int
            },
            DataTypeInformationView::Float { size, .. } => size + 1000,
            _ => 0,
        }
    }
}

/// Whether both types are integers, or both are floats.
pub open spec fn same_type_nature(
    ltype: DataTypeInformationView,
    rtype: DataTypeInformationView,
) -> bool {
    (ltype.is_int() && rtype.is_int()) || (ltype.is_float() && rtype.is_float())
}

/// The model of `REAL`.
pub open spec fn real_type() -> DataTypeInformationView {
    DataTypeInformationView::Float { name: "REAL"@, size: REAL_SIZE }
}

/// The model of `LREAL`.
pub open spec fn lreal_type() -> DataTypeInformationView {
    DataTypeInformationView::Float { name: "LREAL"@, size: LREAL_SIZE }
}

/// The type of the result of arithmetic on two operands. Of two types of one
/// nature it is the one of higher rank, the left one where the ranks are
/// equal. Of two types of different nature it is `REAL`, unless one of them
/// is larger than `REAL`: then it is `LREAL`.
pub open spec fn bigger_type(
    ltype: DataTypeInformationView,
    rtype: DataTypeInformationView,
) -> DataTypeInformationView {
    if same_type_nature(ltype, rtype) {
        if ltype.rank() < rtype.rank() {
            rtype
        } else {
            ltype
        }
    } else if ltype.size() > REAL_SIZE || rtype.size() > REAL_SIZE {
        lreal_type()
    } else {
        real_type()
    }
}

/// Of two types of one nature the bigger one is one of the two, and no
/// type of the two ranks above it.
pub proof fn lemma_bigger_type_of_one_nature(
    ltype: DataTypeInformationView,
    rtype: DataTypeInformationView,
)
    requires
        same_type_nature(ltype, rtype),
    ensures
        bigger_type(ltype, rtype) == ltype || bigger_type(ltype, rtype) == rtype,
        bigger_type(ltype, rtype).rank() >= ltype.rank(),
        bigger_type(ltype, rtype).rank() >= rtype.rank(),
        same_type_nature(bigger_type(ltype, rtype), ltype),
{
}

/// Of two types of different nature the bigger one is `REAL` or `LREAL`,
/// and `LREAL` exactly if one of the two is larger than `REAL`; the order of
/// the two does not matter.
pub proof fn lemma_bigger_type_of_two_natures(
    ltype: DataTypeInformationView,
    rtype: DataTypeInformationView,
)
    requires
        !same_type_nature(ltype, rtype),
    ensures
        bigger_type(ltype, rtype) == bigger_type(rtype, ltype),
        bigger_type(ltype, rtype) == lreal_type() <==> ltype.size() > REAL_SIZE || rtype.size()
            > REAL_SIZE,
        bigger_type(ltype, rtype) == real_type() <==> ltype.size() <= REAL_SIZE && rtype.size()
            <= REAL_SIZE,
{
    reveal_strlit("REAL");
    reveal_strlit("LREAL");
}

/// The model of a built-in type without an initial value.
pub open spec fn builtin(name: Seq<char>, information: DataTypeInformationView) -> DataTypeView {
    DataTypeView { name, initial_value: None, information }
}

/// The model of a built-in integer type.
pub open spec fn builtin_integer(name: Seq<char>, signed: bool, size: u32) -> DataTypeView {
    builtin(name, DataTypeInformationView::Integer { name, signed, size })
}

/// The model of a built-in floating-point type.
pub open spec fn builtin_float(name: Seq<char>, size: u32) -> DataTypeView {
    builtin(name, DataTypeInformationView::Float { name, size })
}

/// The catalog of built-in types, in the order in which they are registered.
pub open spec fn builtin_types() -> Seq<DataTypeView> {
    seq![
        builtin("__VOID"@, DataTypeInformationView::Void),
        builtin_integer("BOOL"@, true, 1),
        builtin_integer("BYTE"@, false, 8),
        builtin_integer("SINT"@, true, 8),
        builtin_integer("USINT"@, false, 8),
        builtin_integer("WORD"@, false, 16),
        builtin_integer("INT"@, true, 16),
        builtin_integer("UINT"@, false, 16),
        builtin_integer("DWORD"@, false, 32),
        builtin_integer("DINT"@, true, 32),
        builtin_integer("UDINT"@, false, 32),
        builtin_integer("LWORD"@, false, 64),
        builtin_integer("LINT"@, true, 64),
        builtin_integer("ULINT"@, false, 64),
        builtin_float("REAL"@, REAL_SIZE),
        builtin_float("LREAL"@, LREAL_SIZE),
        builtin("STRING"@, DataTypeInformationView::String { size: 81 }),
    ]
}

/// A copy of a list of names.
fn clone_names(names: &Vec<String>) -> (result: Vec<String>)
    ensures
        view_each(result@) == view_each(names@),
{
    let mut result: Vec<String> = Vec::new();
    let mut i: usize = 0;
    while i < names.len()
        invariant
            i <= names.len(),
            result.len() == i,
            forall|k: int| 0 <= k < i ==> result@[k]@ == names@[k]@,
        decreases names.len() - i,
    {
        result.push(names[i].clone());
        i += 1;
    }
    assert(view_each(result@) =~= view_each(names@));
    result
}

/// A copy of a list of dimensions.
fn clone_dimensions(dimensions: &Vec<Dimension>) -> (result: Vec<Dimension>)
    ensures
        result@ == dimensions@,
{
    let mut result: Vec<Dimension> = Vec::new();
    let mut i: usize = 0;
    while i < dimensions.len()
        invariant
            i <= dimensions.len(),
            result.len() == i,
            forall|k: int| 0 <= k < i ==> result@[k] == dimensions@[k],
        decreases dimensions.len() - i,
    {
        result.push(dimensions[i]);
        i += 1;
    }
    assert(result@ =~= dimensions@);
    result
}

impl Clone for DataTypeInformation {
    fn clone(&self) -> (result: Self)
        ensures
            result@ == self@,
    {
        match self {
            DataTypeInformation::Struct { name, member_names } => DataTypeInformation::Struct {
                name: name.clone(),
                member_names: clone_names(member_names),
            },
            DataTypeInformation::Array {
                name,
                inner_type_name,
                dimensions,
            } => DataTypeInformation::Array {
                name: name.clone(),
                inner_type_name: inner_type_name.clone(),
                dimensions: clone_dimensions(dimensions),
            },
            DataTypeInformation::Integer { name, signed, size } => DataTypeInformation::Integer {
                name: name.clone(),
                signed: *signed,
                size: *size,
            },
            DataTypeInformation::Float { name, size } => DataTypeInformation::Float {
                name: name.clone(),
                size: *size,
            },
            DataTypeInformation::String { size } => DataTypeInformation::String { size: *size },
            DataTypeInformation::Alias { name, referenced_type } => DataTypeInformation::Alias {
                name: name.clone(),
                referenced_type: referenced_type.clone(),
            },
            DataTypeInformation::Void => DataTypeInformation::Void,
        }
    }
}

impl DataType {
    /// The name under which the type is registered.
    pub fn get_name(&self) -> (result: &str)
        ensures
            result@ == self@.name,
    {
        self.name.as_str()
    }

    /// What is known of the type.
    pub fn get_type_information(&self) -> (result: &DataTypeInformation)
        ensures
            *result == self.information,
    {
        &self.information
    }

    /// A copy of what is known of the type.
    pub fn clone_type_information(&self) -> (result: DataTypeInformation)
        ensures
            result@ == self@.information,
    {
        self.information.clone()
    }
}

impl DataTypeInformation {
    /// The name of the type; a string type is called `String`, the void type `Void`.
    pub fn get_name(&self) -> (result: &str)
        ensures
            result@ == self@.name(),
    {
        match self {
            DataTypeInformation::Struct { name, .. } => name.as_str(),
            DataTypeInformation::Array { name, .. } => name.as_str(),
            DataTypeInformation::Integer { name, .. } => name.as_str(),
            DataTypeInformation::Float { name, .. } => name.as_str(),
            DataTypeInformation::String { .. } => "String",
            DataTypeInformation::Alias { name, .. } => name.as_str(),
            DataTypeInformation::Void => "Void",
        }
    }

    /// Whether the type is an integer type.
    pub fn is_int(&self) -> (result: bool)
        ensures
            result == self@.is_int(),
    {
        match self {
            DataTypeInformation::Integer { .. } => true,
            _ => false,
        }
    }

    /// Whether the type is a floating-point type.
    pub fn is_float(&self) -> (result: bool)
        ensures
            result == self@.is_float(),
    {
        match self {
            DataTypeInformation::Float { .. } => true,
            _ => false,
        }
    }

    /// Whether the type is an integer or a floating-point type.
    pub fn is_numerical(&self) -> (result: bool)
        ensures
            result == self@.is_numerical(),
    {
        match self {
            DataTypeInformation::Integer { .. } | DataTypeInformation::Float { .. } => true,
            _ => false,
        }
    }

    /// The size of the type. An array and an alias have none, so the caller
    /// must not ask for it.
    pub fn get_size(&self) -> (result: u32)
        requires
            self@.has_size(),
        ensures
            result == self@.size(),
    {
        match self {
            DataTypeInformation::Integer { size, .. } => *size,
            DataTypeInformation::Float { size, .. } => *size,
            DataTypeInformation::String { size, .. } => *size,
            _ => 0,
        }
    }
}

/// A built-in integer type.
fn new_builtin_integer(name: &str, signed: bool, size: u32) -> (result: DataType)
    ensures
        result@ == builtin_integer(name@, signed, size),
{
    DataType {
        name: String::from_str(name),
        initial_value: None,
        information: DataTypeInformation::Integer { name: String::from_str(name), signed, size },
    }
}

/// A built-in floating-point type.
fn new_builtin_float(name: &str, size: u32) -> (result: DataType)
    ensures
        result@ == builtin_float(name@, size),
{
    DataType {
        name: String::from_str(name),
        initial_value: None,
        information: DataTypeInformation::Float { name: String::from_str(name), size },
    }
}

/// The built-in types: the void type, the integers from `BOOL` to `ULINT`,
/// the two floats and the string of default length.
pub fn get_builtin_types() -> (result: Vec<DataType>)
    ensures
        view_each(result@) == builtin_types(),
{
    let mut res: Vec<DataType> = Vec::new();
    res.push(
        DataType {
            name: String::from_str("__VOID"),
            initial_value: None,
            information: DataTypeInformation::Void,
        },
    );
    res.push(new_builtin_integer("BOOL", true, 1));
    res.push(new_builtin_integer("BYTE", false, 8));
    res.push(new_builtin_integer("SINT", true, 8));
    res.push(new_builtin_integer("USINT", false, 8));
    res.push(new_builtin_integer("WORD", false, 16));
    res.push(new_builtin_integer("INT", true, 16));
    res.push(new_builtin_integer("UINT", false, 16));
    res.push(new_builtin_integer("DWORD", false, 32));
    res.push(new_builtin_integer("DINT", true, 32));
    res.push(new_builtin_integer("UDINT", false, 32));
    res.push(new_builtin_integer("LWORD", false, 64));
    res.push(new_builtin_integer("LINT", true, 64));
    res.push(new_builtin_integer("ULINT", false, 64));
    res.push(new_builtin_float("REAL", REAL_SIZE));
    res.push(new_builtin_float("LREAL", LREAL_SIZE));
    res.push(
        DataType {
            name: String::from_str("STRING"),
            initial_value: None,
            information: DataTypeInformation::String { size: DEFAULT_STRING_LEN + 1 },
        },
    );
    assert(view_each(res@) =~= builtin_types());
    res
}

/// The information of a string type that holds `len` characters and a terminator.
pub fn new_string_information(len: u32) -> (result: DataTypeInformation)
    requires
        len < u32::MAX,
    ensures
        result@ == (DataTypeInformationView::String { size: (len + 1) as u32 }),
{
    DataTypeInformation::String { size: len + 1 }
}

/// The rank of a numerical type.
pub fn get_rank(type_information: &DataTypeInformation) -> (result: u64)
    requires
        type_information@.is_numerical(),
    ensures
        result == type_information@.rank(),
{
    match type_information {
        DataTypeInformation::Integer { signed, size, .. } => {
            if *signed {
                *size as u64 + 1
            } else {
                *size as u64
            }
        },
        DataTypeInformation::Float { size, .. } => *size as u64 + 1000,
        _ => 0,
    }
}

/// Whether both types are integers, or both are floats.
pub fn is_same_type_nature(ltype: &DataTypeInformation, rtype: &DataTypeInformation) -> (result:
    bool)
    ensures
        result == same_type_nature(ltype@, rtype@),
{
    (ltype.is_int() && rtype.is_int()) || (ltype.is_float() && rtype.is_float())
}

/// The information of `REAL`.
pub fn get_real_type() -> (result: DataTypeInformation)
    ensures
        result@ == real_type(),
{
    DataTypeInformation::Float { name: String::from_str("REAL"), size: REAL_SIZE }
}

/// The information of `LREAL`.
pub fn get_lreal_type() -> (result: DataTypeInformation)
    ensures
        result@ == lreal_type(),
{
    DataTypeInformation::Float { name: String::from_str("LREAL"), size: LREAL_SIZE }
}

/// The type of the result of arithmetic on operands of the two types. Where
/// the two are not of one nature their sizes decide, so both must have one.
pub fn get_bigger_type(ltype: &DataTypeInformation, rtype: &DataTypeInformation) -> (result:
    DataTypeInformation)
    requires
        same_type_nature(ltype@, rtype@) || (ltype@.has_size() && rtype@.has_size()),
    ensures
        result@ == bigger_type(ltype@, rtype@),
{
    if is_same_type_nature(ltype, rtype) {
        if get_rank(ltype) < get_rank(rtype) {
            rtype.clone()
        } else {
            ltype.clone()
        }
    } else {
        let real_type = get_real_type();
        let real_size = real_type.get_size();
        if ltype.get_size() > real_size || rtype.get_size() > real_size {
            get_lreal_type()
        } else {
            real_type
        }
    }
}

} // verus!
