use vstd::prelude::*;

use crate::text::{decimal, lemma_decimal_injective, push_decimal};

verus! {

/// The type of a value held by a parameter or a local.
///
/// The length carried by the array variants (and by `String`) is the
/// number of elements; `0` stands for an unknown length.
#[derive(Copy, Clone, PartialEq, Debug)]
pub enum DataType {
    Int8,
    Int16,
    Int32,
    Float,
    Int8Array(u8),
    Int16Array(u8),
    Int32Array(u8),
    FloatArray(u8),
    String(u8),
    Handle,
}

/// Whether `t` is one of the array-like types (strings included).
pub open spec fn spec_is_array(t: DataType) -> bool {
    match t {
        DataType::Int8Array(_) | DataType::Int16Array(_) | DataType::Int32Array(_)
        | DataType::FloatArray(_) | DataType::String(_) => true,
        _ => false,
    }
}

/// The element count recorded in an array-like type.
pub open spec fn spec_array_len(t: DataType) -> u8
    recommends
        spec_is_array(t),
{
    match t {
        DataType::Int8Array(len) | DataType::Int16Array(len) | DataType::Int32Array(len)
        | DataType::FloatArray(len) | DataType::String(len) => len,
        _ => 0,
    }
}

/// The same array-like type with its element count replaced.
pub open spec fn spec_with_array_len(t: DataType, new_len: u8) -> DataType {
    match t {
        DataType::Int8Array(_) => DataType::Int8Array(new_len),
        DataType::Int16Array(_) => DataType::Int16Array(new_len),
        DataType::Int32Array(_) => DataType::Int32Array(new_len),
        DataType::FloatArray(_) => DataType::FloatArray(new_len),
        DataType::String(_) => DataType::String(new_len),
        _ => t,
    }
}

/// The element type of an array-like type; a strings' element is `Int8`.
/// Any other type is its own element type.
pub open spec fn spec_without_array(t: DataType) -> DataType {
    match t {
        DataType::Int8Array(_) => DataType::Int8,
        DataType::Int16Array(_) => DataType::Int16,
        DataType::Int32Array(_) => DataType::Int32,
        DataType::FloatArray(_) => DataType::Float,
        DataType::String(_) => DataType::Int8,
        _ => t,
    }
}

/// Size in bytes of one value of a non-array type.
pub open spec fn scalar_size(t: DataType) -> u32 {
    match t {
        DataType::Int8 => 1,
        DataType::Int16 => 2,
        _ => 4,
    }
}

/// Size in bytes of a value of type `t`: `u32::MAX` for an array of unknown
/// length, the element count times the element size for other arrays.
pub open spec fn spec_size(t: DataType) -> int {
    if spec_is_array(t) {
        if spec_array_len(t) == 0 {
            u32::MAX as int
        } else {
            spec_array_len(t) * scalar_size(spec_without_array(t))
        }
    } else {
        scalar_size(t) as int
    }
}

/// `1` for array-like types, `0` for the others: taking the element type
/// lowers it.
pub open spec fn array_rank(t: DataType) -> nat {
    if spec_is_array(t) { 1 } else { 0 }
}

impl DataType {
    /// Whether this is an array-like type (strings included).
    pub fn is_array(&self) -> (r: bool)
        ensures
            r == spec_is_array(*self),
    {
        match self {
            DataType::Int8Array(_) => true,
            DataType::Int16Array(_) => true,
            DataType::Int32Array(_) => true,
            DataType::FloatArray(_) => true,
            DataType::String(_) => true,
            _ => false,
        }
    }

    /// The element count of an array-like type (`0` when unknown).
    pub fn array_len(&self) -> (r: u8)
        requires
            spec_is_array(*self),
        ensures
            r == spec_array_len(*self),
    {
        match self {
            DataType::Int8Array(len) => *len,
            DataType::Int16Array(len) => *len,
            DataType::Int32Array(len) => *len,
            DataType::FloatArray(len) => *len,
            DataType::String(len) => *len,
            _ => 0,
        }
    }

    /// Replaces the element count of an array-like type, keeping its kind.
    pub fn set_array_len(&mut self, new_len: u8)
        requires
            spec_is_array(*old(self)),
        ensures
            *final(self) == spec_with_array_len(*old(self), new_len),
    {
        let t = *self;
        *self = match t {
            DataType::Int8Array(_) => DataType::Int8Array(new_len),
            DataType::Int16Array(_) => DataType::Int16Array(new_len),
            DataType::Int32Array(_) => DataType::Int32Array(new_len),
            DataType::FloatArray(_) => DataType::FloatArray(new_len),
            DataType::String(_) => DataType::String(new_len),
            _ => t,
        };
    }

    /// The element type of an array-like type, or the type itself.
    pub fn without_array(&self) -> (r: DataType)
        ensures
            r == spec_without_array(*self),
    {
        match self {
            DataType::Int8Array(_) => DataType::Int8,
            DataType::Int16Array(_) => DataType::Int16,
            DataType::Int32Array(_) => DataType::Int32,
            DataType::FloatArray(_) => DataType::Float,
            DataType::String(_) => DataType::Int8,
            _ => *self,
        }
    }

    /// Size in bytes of a value of this type; `u32::MAX` when it is an
    /// array of unknown length.
    pub fn size(&self) -> (r: u32)
        ensures
            r == spec_size(*self),
        decreases array_rank(*self),
    {
        match self {
            DataType::Int8 => 1,
            DataType::Int16 => 2,
            DataType::Int32 => 4,
            DataType::Float => 4,
            DataType::Handle => 4,
            DataType::Int8Array(len) | DataType::Int16Array(len) | DataType::Int32Array(len)
            | DataType::FloatArray(len) | DataType::String(len) => {
                if *len == 0 {
                    u32::MAX
                } else {
                    let elem = self.without_array().size();
                    assert(elem <= 4);
                    *len as u32 * elem
                }
            },
        }
    }

    /// Alignment in bytes: the size of the element type.
    pub fn align(&self) -> (r: u32)
        ensures
            r == scalar_size(spec_without_array(*self)),
    {
        self.without_array().size()
    }
}

/// Taking the element type twice is the same as taking it once, and the
/// element type is never an array; a type that is not an array is its own
/// element type.
pub proof fn lemma_without_array(t: DataType)
    ensures
        spec_without_array(spec_without_array(t)) == spec_without_array(t),
        !spec_is_array(spec_without_array(t)),
        !spec_is_array(t) ==> spec_without_array(t) == t,
        spec_is_array(t) ==> spec_without_array(t) != t,
{
}

/// After the element count of an array type is set, the type is still an
/// array of the same element type, its count reads back as the one set, and
/// setting a count again overrides the first; setting the count it already
/// has changes nothing.
pub proof fn lemma_set_array_len(t: DataType, n: u8, m: u8)
    requires
        spec_is_array(t),
    ensures
        spec_is_array(spec_with_array_len(t, n)),
        spec_array_len(spec_with_array_len(t, n)) == n,
        spec_without_array(spec_with_array_len(t, n)) == spec_without_array(t),
        spec_with_array_len(spec_with_array_len(t, n), m) == spec_with_array_len(t, m),
        spec_with_array_len(t, spec_array_len(t)) == t,
{
}

/// The alignment of a type is 1, 2 or 4 bytes; a non-array type's size is
/// its alignment; an array of known length `n` takes `n` times its alignment,
/// so its size is a multiple of its alignment and at least its count.
pub proof fn lemma_size_align(t: DataType)
    ensures
        scalar_size(spec_without_array(t)) == 1 || scalar_size(spec_without_array(t)) == 2
            || scalar_size(spec_without_array(t)) == 4,
        !spec_is_array(t) ==> spec_size(t) == scalar_size(spec_without_array(t)),
        spec_is_array(t) && spec_array_len(t) != 0 ==> spec_size(t) == spec_array_len(t)
            * scalar_size(spec_without_array(t)),
        spec_is_array(t) && spec_array_len(t) != 0 ==> spec_size(t) % (scalar_size(
            spec_without_array(t),
        ) as int) == 0 && spec_size(t) >= spec_array_len(t),
        spec_is_array(t) && spec_array_len(t) == 0 ==> spec_size(t) == u32::MAX,
        spec_size(t) > 0,
{
    if spec_is_array(t) && spec_array_len(t) != 0 {
        let n = spec_array_len(t) as int;
        let e = scalar_size(spec_without_array(t)) as int;
        assert(n * e <= 255 * 4) by (nonlinear_arith)
            requires
                0 < n <= 255,
                1 <= e <= 4,
        ;
        assert((n * e) % e == 0 && n * e >= n) by (nonlinear_arith)
            requires
                0 < n <= 255,
                1 <= e <= 4,
        ;
    }
}

/// The name of a non-array type.
pub open spec fn scalar_text(t: DataType) -> Seq<char> {
    match t {
        DataType::Int8 => "i8"@,
        DataType::Int16 => "i16"@,
        DataType::Int32 => "i32"@,
        DataType::Float => "f"@,
        _ => "handle"@,
    }
}

/// The text of an element count: `[]` when unknown, `[n]` otherwise.
pub open spec fn len_suffix(len: u8) -> Seq<char> {
    if len == 0 {
        "[]"@
    } else {
        "["@ + decimal(len as nat) + "]"@
    }
}

/// The textual form of a data type: `i8`, `i16`, `i32`, `f` or `handle` for
/// the scalars; the element type followed by `[]` or `[n]` for arrays;
/// `str` or `str(n)` for strings.
pub open spec fn data_type_text(t: DataType) -> Seq<char> {
    match t {
        DataType::String(len) => if len == 0 {
            "str"@
        } else {
            "str("@ + decimal(len as nat) + ")"@
        },
        DataType::Int8Array(len) | DataType::Int16Array(len) | DataType::Int32Array(len)
        | DataType::FloatArray(len) => scalar_text(spec_without_array(t)) + len_suffix(len),
        _ => scalar_text(t),
    }
}

/// The text of an array type of known length `n` is the text of its
/// element type followed by `[`, the decimal text of `n` and `]`; of unknown
/// length, the element type's text followed by `[]`. A string type of known
/// length `n` reads `str(` `n` `)`, of unknown length `str`.
pub proof fn lemma_array_text(n: u8)
    ensures
        n != 0 ==> data_type_text(DataType::Int8Array(n)) == data_type_text(DataType::Int8) + "["@
            + decimal(n as nat) + "]"@,
        n != 0 ==> data_type_text(DataType::Int16Array(n)) == data_type_text(DataType::Int16)
            + "["@ + decimal(n as nat) + "]"@,
        n != 0 ==> data_type_text(DataType::Int32Array(n)) == data_type_text(DataType::Int32)
            + "["@ + decimal(n as nat) + "]"@,
        n != 0 ==> data_type_text(DataType::FloatArray(n)) == data_type_text(DataType::Float)
            + "["@ + decimal(n as nat) + "]"@,
        n != 0 ==> data_type_text(DataType::String(n)) == "str("@ + decimal(n as nat) + ")"@,
        n == 0 ==> data_type_text(DataType::Int8Array(n)) == data_type_text(DataType::Int8) + "[]"@,
        n == 0 ==> data_type_text(DataType::Int16Array(n)) == data_type_text(DataType::Int16)
            + "[]"@,
        n == 0 ==> data_type_text(DataType::Int32Array(n)) == data_type_text(DataType::Int32)
            + "[]"@,
        n == 0 ==> data_type_text(DataType::FloatArray(n)) == data_type_text(DataType::Float)
            + "[]"@,
        n == 0 ==> data_type_text(DataType::String(n)) == "str"@,
{
}

/// Array types of the same kind but different lengths have different texts:
/// the text tells the length.
pub proof fn lemma_array_text_tells_len(t: DataType, n: u8, m: u8)
    requires
        spec_is_array(t),
    ensures
        data_type_text(spec_with_array_len(t, n)) == data_type_text(spec_with_array_len(t, m))
            ==> n == m,
{
    reveal_strlit("[]");
    reveal_strlit("[");
    reveal_strlit("]");
    reveal_strlit("str");
    reveal_strlit("str(");
    reveal_strlit(")");
    let a = spec_with_array_len(t, n);
    let b = spec_with_array_len(t, m);
    if data_type_text(a) == data_type_text(b) {
        crate::text::lemma_decimal(n as nat);
        crate::text::lemma_decimal(m as nat);
        if t is String {
            let ta = data_type_text(a);
            if n != 0 && m != 0 {
                assert(decimal(n as nat) =~= ta.subrange(4, ta.len() - 1));
                assert(decimal(m as nat) =~= ta.subrange(4, ta.len() - 1));
                lemma_decimal_injective(n as nat, m as nat);
            } else if n != 0 || m != 0 {
                assert(ta.len() != ta.len());
            }
        } else {
            let e = scalar_text(spec_without_array(t));
            let ta = data_type_text(a);
            assert(spec_without_array(a) == spec_without_array(t));
            assert(spec_without_array(b) == spec_without_array(t));
            if n != 0 && m != 0 {
                assert(ta == e + "["@ + decimal(n as nat) + "]"@);
                assert(ta == e + "["@ + decimal(m as nat) + "]"@);
                assert(decimal(n as nat) =~= ta.subrange(e.len() + 1int, ta.len() - 1));
                assert(decimal(m as nat) =~= ta.subrange(e.len() + 1int, ta.len() - 1));
                lemma_decimal_injective(n as nat, m as nat);
            } else if n != 0 || m != 0 {
                assert(ta.len() != ta.len());
            }
        }
    }
}

impl DataType {
    /// The textual form of this type (see `data_type_text`).
    pub fn to_string(&self) -> (r: String)
        ensures
            r@ == data_type_text(*self),
        decreases array_rank(*self),
    {
        match self {
            DataType::Int8 => String::from_str("i8"),
            DataType::Int16 => String::from_str("i16"),
            DataType::Int32 => String::from_str("i32"),
            DataType::Float => String::from_str("f"),
            DataType::Handle => String::from_str("handle"),
            DataType::String(len) => {
                if *len == 0 {
                    String::from_str("str")
                } else {
                    let mut s = String::from_str("str(");
                    push_decimal(&mut s, *len as u32);
                    s.append(")");
                    s
                }
            },
            DataType::Int8Array(len) | DataType::Int16Array(len) | DataType::Int32Array(len)
            | DataType::FloatArray(len) => {
                let mut s = self.without_array().to_string();
                if *len == 0 {
                    s.append("[]");
                } else {
                    s.append("[");
                    push_decimal(&mut s, *len as u32);
                    s.append("]");
                }
                assert(s@ =~= data_type_text(*self));
                s
            },
        }
    }
}

/// The role of a parameter: an input or output of a given data type, or one
/// of the special operands (an offset, the instruction pointer, a block id).
#[derive(Copy, Clone, PartialEq, Debug)]
pub enum ParamType {
    Input(DataType),
    Output(DataType),
    Offset,
    IP,
    BlockID,
}

/// Whether a parameter type carries a data type.
pub open spec fn has_data_type(p: ParamType) -> bool {
    p is Input || p is Output
}

/// The data type carried by an input or output parameter type.
pub open spec fn spec_data_type(p: ParamType) -> DataType
    recommends
        has_data_type(p),
{
    match p {
        ParamType::Input(t) | ParamType::Output(t) => t,
        _ => DataType::Int8,
    }
}

impl ParamType {
    /// The data type of an input or output parameter.
    pub fn data_type(&self) -> (r: DataType)
        requires
            has_data_type(*self),
        ensures
            r == spec_data_type(*self),
    {
        match self {
            ParamType::Input(t) => *t,
            ParamType::Output(t) => *t,
            _ => DataType::Int8,
        }
    }
}

/// The textual form of a parameter type: `<` or `>` before the data type of
/// an input or output, `:offset`, `:IP` or `:block` for the others.
pub open spec fn param_type_text(p: ParamType) -> Seq<char> {
    match p {
        ParamType::Input(t) => "<"@ + data_type_text(t),
        ParamType::Output(t) => ">"@ + data_type_text(t),
        ParamType::Offset => ":offset"@,
        ParamType::IP => ":IP"@,
        ParamType::BlockID => ":block"@,
    }
}

impl ParamType {
    /// The textual form of this parameter type (see `param_type_text`).
    pub fn to_string(&self) -> (r: String)
        ensures
            r@ == param_type_text(*self),
    {
        match self {
            ParamType::Input(t) => String::from_str("<").concat(t.to_string().as_str()),
            ParamType::Output(t) => String::from_str(">").concat(t.to_string().as_str()),
            ParamType::Offset => String::from_str(":offset"),
            ParamType::IP => String::from_str(":IP"),
            ParamType::BlockID => String::from_str(":block"),
        }
    }
}

} // verus!
