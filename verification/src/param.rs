use vstd::prelude::*;

use crate::data_type::{
    has_data_type, param_type_text, spec_data_type, spec_without_array, DataType, ParamType,
};
use crate::text::{
    decimal, decode_utf8_bytes, glyphs, push_decimal, signed_decimal, signed_decimal_string,
    Glyph, TextOut,
};

verus! {

/// Where the value of a parameter lives, or the value itself.
#[derive(Clone, PartialEq, Debug)]
pub enum ParamValue {
    /// An offset into the object's local storage.
    Local(u32),
    /// An offset into the image's global storage.
    Global(u32),
    /// An immediate 32-bit value.
    Constant(i32),
    /// An immediate byte string.
    String(Vec<u8>),
}

/// One operand of an instruction.
#[derive(Clone, PartialEq, Debug)]
pub struct Parameter {
    pub param_type: ParamType,
    pub value: ParamValue,
}

/// Whether a parameter holds an immediate 32-bit value.
pub open spec fn is_constant(p: Parameter) -> bool {
    p.value is Constant
}

/// The immediate 32-bit value of a constant parameter.
pub open spec fn constant_of(p: Parameter) -> i32
    recommends
        is_constant(p),
{
    p.value->Constant_0
}

impl Parameter {
    /// The constant's low byte, as a signed 8-bit value.
    pub fn to_i8(&self) -> (r: i8)
        requires
            is_constant(*self),
        ensures
            r == constant_of(*self) as i8,
            -128 <= constant_of(*self) < 128 ==> r == constant_of(*self),
    {
        let x = self.to_i32();
        proof {
            lemma_i8_cast_small(x);
        }
        x as i8
    }

    /// Whether the constant's low byte is non-zero.
    pub fn to_bool(&self) -> (r: bool)
        requires
            is_constant(*self),
        ensures
            r == (constant_of(*self) as i8 != 0),
    {
        self.to_i8() != 0
    }

    /// The constant's low two bytes, as a signed 16-bit value.
    pub fn to_i16(&self) -> (r: i16)
        requires
            is_constant(*self),
        ensures
            r == constant_of(*self) as i16,
            -32768 <= constant_of(*self) < 32768 ==> r == constant_of(*self),
    {
        let x = self.to_i32();
        proof {
            lemma_i16_cast_small(x);
        }
        x as i16
    }

    /// The constant itself.
    pub fn to_i32(&self) -> (r: i32)
        requires
            is_constant(*self),
        ensures
            r == constant_of(*self),
    {
        match self.value {
            ParamValue::Constant(x) => x,
            _ => 0,
        }
    }

    /// The constant's bits, read as an unsigned 32-bit value.
    pub fn to_u32(&self) -> (r: u32)
        requires
            is_constant(*self),
        ensures
            r == constant_of(*self) as u32,
            constant_of(*self) >= 0 ==> r == constant_of(*self),
            constant_of(*self) < 0 ==> r == constant_of(*self) + 0x1_0000_0000,
    {
        let x = self.to_i32();
        proof {
            lemma_u32_cast(x);
        }
        x as u32
    }
}

/// Whether a constant of this parameter type is shown as a float: the type
/// is an input or output whose element type is `Float`.
pub open spec fn shows_float(pt: ParamType) -> bool {
    has_data_type(pt) && spec_without_array(spec_data_type(pt)) is Float
}

/// The textual form of a parameter's value: `local+n`, `global+n`, the
/// constant (as a float followed by `f` when its type says so, in decimal
/// otherwise), or the string in double quotes when it is valid UTF-8 and
/// `<invalid UTF8 string>` when it is not.
pub open spec fn value_glyphs(p: Parameter) -> Seq<Glyph> {
    match p.value {
        ParamValue::Local(i) => glyphs("local+"@ + decimal(i as nat)),
        ParamValue::Global(i) => glyphs("global+"@ + decimal(i as nat)),
        ParamValue::Constant(x) => if shows_float(p.param_type) {
            seq![Glyph::Float(x as u32)] + glyphs("f"@)
        } else {
            glyphs(signed_decimal(x as int))
        },
        ParamValue::String(v) => if vstd::utf8::valid_utf8(v@) {
            glyphs("\""@ + vstd::utf8::decode_utf8(v@) + "\""@)
        } else {
            glyphs("<invalid UTF8 string>"@)
        },
    }
}

/// The textual form of a parameter: its value followed by its type.
pub open spec fn parameter_glyphs(p: Parameter) -> Seq<Glyph> {
    value_glyphs(p) + glyphs(param_type_text(p.param_type))
}

impl Parameter {
    /// Appends the textual form of this parameter (see `parameter_glyphs`).
    pub fn fmt(&self, out: &mut TextOut)
        ensures
            final(out)@ == old(out)@ + parameter_glyphs(*self),
    {
        match &self.value {
            ParamValue::Local(i) => {
                let mut s = String::from_str("local+");
                push_decimal(&mut s, *i);
                out.push_string(s);
            },
            ParamValue::Global(i) => {
                let mut s = String::from_str("global+");
                push_decimal(&mut s, *i);
                out.push_string(s);
            },
            ParamValue::Constant(x) => {
                let float = match self.param_type {
                    ParamType::Input(t) | ParamType::Output(t) => match t.without_array() {
                        DataType::Float => true,
                        _ => false,
                    },
                    _ => false,
                };
                if float {
                    out.push_float(*x as u32);
                    out.push_str("f");
                    assert(out@ =~= old(out)@ + value_glyphs(*self));
                } else {
                    out.push_string(signed_decimal_string(*x));
                }
            },
            ParamValue::String(v) => {
                match decode_utf8_bytes(v) {
                    Some(text) => {
                        let mut s = String::from_str("\"");
                        s.append(text.as_str());
                        s.append("\"");
                        out.push_string(s);
                    },
                    None => {
                        out.push_str("<invalid UTF8 string>");
                    },
                }
            },
        }
        out.push_string(self.param_type.to_string());
        assert(out@ =~= old(out)@ + parameter_glyphs(*self));
    }
}

/// A constant whose parameter is an input or output of type `Float` or of a
/// float array is shown as the float with the constant's bits, whatever its
/// sign, followed by `f` and the parameter type's text; the bits handed out
/// read back as the constant.
pub proof fn lemma_float_constant_text(t: DataType, x: i32, input: bool)
    requires
        t is Float || t is FloatArray,
    ensures
        ({
            let pt = if input {
                ParamType::Input(t)
            } else {
                ParamType::Output(t)
            };
            parameter_glyphs(Parameter { param_type: pt, value: ParamValue::Constant(x) }) == seq![
                Glyph::Float(x as u32),
            ] + glyphs("f"@) + glyphs(param_type_text(pt))
        }),
        (x as u32) as i32 == x,
{
    lemma_constant_readings(x);
}

/// A constant whose parameter is not a float input or output is shown as
/// its signed decimal text followed by the parameter type's text, and that
/// text denotes the constant.
pub proof fn lemma_integer_constant_text(pt: ParamType, x: i32)
    requires
        !(pt matches ParamType::Input(t) && (t is Float || t is FloatArray)),
        !(pt matches ParamType::Output(t) && (t is Float || t is FloatArray)),
    ensures
        parameter_glyphs(Parameter { param_type: pt, value: ParamValue::Constant(x) }) == glyphs(
            signed_decimal(x as int),
        ) + glyphs(param_type_text(pt)),
        x < 0 ==> signed_decimal(x as int)[0] == '-' && crate::text::digits_value(
            signed_decimal(x as int).drop_first(),
        ) == -x,
        x >= 0 ==> crate::text::digits_value(signed_decimal(x as int)) == x,
{
    crate::text::lemma_signed_decimal(x as int);
}

/// A local or global offset is shown as `local+` or `global+` followed by
/// the offset's decimal text (which denotes the offset), then the type's
/// text; a byte string is shown between double quotes as the text it
/// encodes when it is valid UTF-8, and as `<invalid UTF8 string>` otherwise.
pub proof fn lemma_other_values_text(pt: ParamType, i: u32, v: Vec<u8>)
    ensures
        parameter_glyphs(Parameter { param_type: pt, value: ParamValue::Local(i) }) == glyphs(
            "local+"@ + decimal(i as nat),
        ) + glyphs(param_type_text(pt)),
        parameter_glyphs(Parameter { param_type: pt, value: ParamValue::Global(i) }) == glyphs(
            "global+"@ + decimal(i as nat),
        ) + glyphs(param_type_text(pt)),
        crate::text::digits_value(decimal(i as nat)) == i,
        vstd::utf8::valid_utf8(v@) ==> parameter_glyphs(
            Parameter { param_type: pt, value: ParamValue::String(v) },
        ) == glyphs("\""@ + vstd::utf8::decode_utf8(v@) + "\""@) + glyphs(param_type_text(pt)),
        !vstd::utf8::valid_utf8(v@) ==> parameter_glyphs(
            Parameter { param_type: pt, value: ParamValue::String(v) },
        ) == glyphs("<invalid UTF8 string>"@) + glyphs(param_type_text(pt)),
{
    crate::text::lemma_decimal(i as nat);
}

/// The narrow readings of a constant agree with the wide ones: the 8-bit
/// value is the low byte of the 16-bit value, the truth value is whether the
/// 8-bit value is non-zero, and the unsigned and signed 32-bit readings are
/// the same bits.
pub proof fn lemma_constant_readings(x: i32)
    ensures
        (x as i16) as i8 == x as i8,
        (x as u32) as i32 == x,
        (x as i8 != 0) == (x as u32 % 256 != 0),
{
    assert((x as i16) as i8 == x as i8) by (bit_vector);
    assert((x as u32) as i32 == x) by (bit_vector);
    assert((x as i8 != 0) == (x as u32 % 256 != 0)) by (bit_vector);
}

proof fn lemma_i8_cast_small(x: i32)
    ensures
        -128 <= x < 128 ==> x as i8 == x,
{
    assert(-128 <= x < 128 ==> x as i8 == x) by (bit_vector);
}

proof fn lemma_i16_cast_small(x: i32)
    ensures
        -32768 <= x < 32768 ==> x as i16 == x,
{
    assert(-32768 <= x < 32768 ==> x as i16 == x) by (bit_vector);
}

proof fn lemma_u32_cast(x: i32)
    ensures
        x >= 0 ==> x as u32 == x,
        x < 0 ==> x as u32 == x + 0x1_0000_0000,
{
    assert(x >= 0 ==> x as u32 == x) by (bit_vector);
    assert(x < 0 ==> x as u32 == x + 0x1_0000_0000) by (bit_vector);
}

} // verus!
