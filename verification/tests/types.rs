use lib::{
    Block, DataType, Image, Instruction, Object, Opcode, ParamType, ParamValue, Parameter, Piece,
    TextOut,
};

fn render(out: &TextOut) -> String {
    let mut s = String::new();
    for p in out.pieces().iter() {
        match p {
            Piece::Text(t) => s.push_str(t),
            Piece::Float(bits) => s.push_str(&format!("{}", f32::from_bits(*bits))),
        }
    }
    s
}

fn param(param_type: ParamType, value: ParamValue) -> Parameter {
    Parameter { param_type, value }
}

fn param_text(p: &Parameter) -> String {
    let mut out = TextOut::new();
    p.fmt(&mut out);
    render(&out)
}

fn instr(ip: u32, name: &str, params: Vec<Parameter>) -> Instruction {
    Instruction { ip, op: Opcode { mnemonic: name.to_string() }, params }
}

#[test]
fn data_type_is_array() {
    assert!(!DataType::Int8.is_array());
    assert!(!DataType::Float.is_array());
    assert!(!DataType::Handle.is_array());
    assert!(DataType::Int16Array(0).is_array());
    assert!(DataType::FloatArray(3).is_array());
    assert!(DataType::String(7).is_array());
}

#[test]
fn data_type_array_len_and_set() {
    assert_eq!(DataType::Int32Array(9).array_len(), 9);
    assert_eq!(DataType::String(0).array_len(), 0);
    let mut t = DataType::Int16Array(0);
    t.set_array_len(12);
    assert_eq!(t, DataType::Int16Array(12));
    assert_eq!(t.array_len(), 12);
    let mut s = DataType::String(3);
    s.set_array_len(40);
    assert_eq!(s, DataType::String(40));
}

#[test]
fn data_type_without_array() {
    assert_eq!(DataType::Int8Array(4).without_array(), DataType::Int8);
    assert_eq!(DataType::Int16Array(4).without_array(), DataType::Int16);
    assert_eq!(DataType::Int32Array(4).without_array(), DataType::Int32);
    assert_eq!(DataType::FloatArray(4).without_array(), DataType::Float);
    assert_eq!(DataType::String(4).without_array(), DataType::Int8);
    assert_eq!(DataType::Handle.without_array(), DataType::Handle);
    assert_eq!(DataType::Float.without_array(), DataType::Float);
}

#[test]
fn data_type_size_and_align() {
    assert_eq!(DataType::Int8.size(), 1);
    assert_eq!(DataType::Int16.size(), 2);
    assert_eq!(DataType::Int32.size(), 4);
    assert_eq!(DataType::Float.size(), 4);
    assert_eq!(DataType::Handle.size(), 4);
    assert_eq!(DataType::Int8Array(3).size(), 3);
    assert_eq!(DataType::Int16Array(3).size(), 6);
    assert_eq!(DataType::Int32Array(5).size(), 20);
    assert_eq!(DataType::FloatArray(255).size(), 1020);
    assert_eq!(DataType::String(10).size(), 10);
    assert_eq!(DataType::FloatArray(0).size(), u32::MAX);
    assert_eq!(DataType::String(0).size(), u32::MAX);
    assert_eq!(DataType::Int16Array(0).align(), 2);
    assert_eq!(DataType::String(5).align(), 1);
    assert_eq!(DataType::Handle.align(), 4);
    assert_eq!(DataType::FloatArray(2).align(), 4);
}

#[test]
fn data_type_text() {
    assert_eq!(DataType::Int8.to_string(), "i8");
    assert_eq!(DataType::Int16.to_string(), "i16");
    assert_eq!(DataType::Int32.to_string(), "i32");
    assert_eq!(DataType::Float.to_string(), "f");
    assert_eq!(DataType::Handle.to_string(), "handle");
    assert_eq!(DataType::Int8Array(0).to_string(), "i8[]");
    assert_eq!(DataType::Int32Array(16).to_string(), "i32[16]");
    assert_eq!(DataType::FloatArray(255).to_string(), "f[255]");
    assert_eq!(DataType::String(0).to_string(), "str");
    assert_eq!(DataType::String(20).to_string(), "str(20)");
}

#[test]
fn param_type_data_type_and_text() {
    assert_eq!(ParamType::Input(DataType::Int16).data_type(), DataType::Int16);
    assert_eq!(ParamType::Output(DataType::String(3)).data_type(), DataType::String(3));
    assert_eq!(ParamType::Input(DataType::Int8).to_string(), "<i8");
    assert_eq!(ParamType::Output(DataType::FloatArray(0)).to_string(), ">f[]");
    assert_eq!(ParamType::Offset.to_string(), ":offset");
    assert_eq!(ParamType::IP.to_string(), ":IP");
    assert_eq!(ParamType::BlockID.to_string(), ":block");
}

#[test]
fn parameter_constant_readings() {
    let p = param(ParamType::Input(DataType::Int32), ParamValue::Constant(300));
    assert_eq!(p.to_i32(), 300);
    assert_eq!(p.to_i8(), 44);
    assert_eq!(p.to_i16(), 300);
    assert_eq!(p.to_u32(), 300);
    assert!(p.to_bool());
    let q = param(ParamType::Input(DataType::Int32), ParamValue::Constant(-1));
    assert_eq!(q.to_i8(), -1);
    assert_eq!(q.to_i16(), -1);
    assert_eq!(q.to_u32(), u32::MAX);
    assert!(q.to_bool());
    let r = param(ParamType::Input(DataType::Int8), ParamValue::Constant(256));
    assert_eq!(r.to_i8(), 0);
    assert!(!r.to_bool());
    let w = param(ParamType::Input(DataType::Int16), ParamValue::Constant(70000));
    assert_eq!(w.to_i16(), 4464);
    assert_eq!(w.to_i8(), 112);
}

#[test]
fn parameter_text() {
    let local = param(ParamType::Input(DataType::Int32), ParamValue::Local(8));
    assert_eq!(param_text(&local), "local+8<i32");
    let global = param(ParamType::Output(DataType::Int8Array(4)), ParamValue::Global(0));
    assert_eq!(param_text(&global), "global+0>i8[4]");
    let neg = param(ParamType::Input(DataType::Int16), ParamValue::Constant(-42));
    assert_eq!(param_text(&neg), "-42<i16");
    let min = param(ParamType::Offset, ParamValue::Constant(i32::MIN));
    assert_eq!(param_text(&min), "-2147483648:offset");
    let ip = param(ParamType::IP, ParamValue::Constant(17));
    assert_eq!(param_text(&ip), "17:IP");
    let block = param(ParamType::BlockID, ParamValue::Constant(2));
    assert_eq!(param_text(&block), "2:block");
}

#[test]
fn parameter_text_float() {
    let bits = 1.5f32.to_bits() as i32;
    let p = param(ParamType::Input(DataType::Float), ParamValue::Constant(bits));
    let mut out = TextOut::new();
    p.fmt(&mut out);
    assert_eq!(out.pieces()[0], Piece::Float(1.5f32.to_bits()));
    assert_eq!(render(&out), "1.5f<f");
    let arr = param(ParamType::Output(DataType::FloatArray(2)), ParamValue::Constant(0));
    assert_eq!(param_text(&arr), "0f>f[2]");
    let not_float = param(ParamType::Input(DataType::Int32), ParamValue::Constant(bits));
    assert_eq!(param_text(&not_float), "1069547520<i32");
}

#[test]
fn parameter_text_string() {
    let ok = param(ParamType::Input(DataType::String(0)), ParamValue::String(b"hello".to_vec()));
    assert_eq!(param_text(&ok), "\"hello\"<str");
    let utf8 = param(ParamType::Input(DataType::String(3)), ParamValue::String("é!".as_bytes().to_vec()));
    assert_eq!(param_text(&utf8), "\"é!\"<str(3)");
    let bad = param(ParamType::Input(DataType::String(0)), ParamValue::String(vec![0xff, 0x41]));
    assert_eq!(param_text(&bad), "<invalid UTF8 string><str");
}

#[test]
fn instruction_text() {
    let i = instr(
        7,
        "MOVE8_8",
        vec![
            param(ParamType::Input(DataType::Int8), ParamValue::Constant(1)),
            param(ParamType::Output(DataType::Int8), ParamValue::Local(0)),
        ],
    );
    let mut out = TextOut::new();
    i.fmt(&mut out);
    assert_eq!(render(&out), "    7: MOVE8_8              1<i8 local+0>i8");
    let long = instr(123456, "AN_OPERATION_NAME_LONGER_THAN_20", vec![]);
    let mut out = TextOut::new();
    long.fmt(&mut out);
    assert_eq!(render(&out), "123456: AN_OPERATION_NAME_LONGER_THAN_20");
}

#[test]
fn block_new_and_text() {
    let mut b = Block::new(3);
    assert_eq!(b.id, 3);
    assert!(b.instrs.is_empty());
    b.instrs.push(instr(0, "NOP", vec![]));
    let mut out = TextOut::new();
    b.fmt(&mut out);
    assert_eq!(
        render(&out),
        "    block 3 {\n            0: NOP                 \n    }"
    );
}

#[test]
fn object_new_and_subcall() {
    let o = Object::new(0, 1, 16);
    assert_eq!(o.owner_id, 0);
    assert_eq!(o.trigger_count, 1);
    assert_eq!(o.local_bytes, 16);
    assert_eq!(o.last_ip, 0);
    assert!(o.params.is_empty() && o.instrs.is_empty() && o.blocks.is_empty());
    assert!(o.is_subcall());
    assert!(!Object::new(1, 1, 0).is_subcall());
    assert!(!Object::new(0, 0, 0).is_subcall());
}

#[test]
fn object_text() {
    let mut o = Object::new(0, 1, 4);
    o.params.push(ParamType::Input(DataType::Int32));
    o.params.push(ParamType::Output(DataType::Float));
    o.instrs.push(instr(0, "RETURN", vec![]));
    let mut out = TextOut::new();
    o.fmt(&mut out);
    assert_eq!(
        render(&out),
        "object {\n    owner_id: 0\n    trigger_count: 1\n    local_bytes: 4\n\n    proto: <i32 >f\n\n        0: RETURN              \n}"
    );
    let mut p = Object::new(2, 0, 0);
    let mut b = Block::new(1);
    b.instrs.push(instr(5, "NOP", vec![]));
    p.blocks.push(b);
    let mut out = TextOut::new();
    p.fmt(&mut out);
    assert_eq!(
        render(&out),
        "object {\n    owner_id: 2\n    trigger_count: 0\n    local_bytes: 0\n\n    block 1 {\n            5: NOP                 \n    }\n}"
    );
}

#[test]
fn image_text() {
    let im = Image { version: 109, global_bytes: 32, objects: vec![Object::new(0, 0, 0)] };
    let mut out = TextOut::new();
    im.fmt(&mut out);
    assert_eq!(
        render(&out),
        "version: 109\nglobal_bytes: 32\n\nobject {\n    owner_id: 0\n    trigger_count: 0\n    local_bytes: 0\n\n}"
    );
    let empty = Image { version: 0, global_bytes: 0, objects: vec![] };
    let mut out = TextOut::new();
    empty.fmt(&mut out);
    assert_eq!(render(&out), "version: 0\nglobal_bytes: 0");
}

fn blocked_object() -> Object {
    let mut o = Object::new(1, 0, 0);
    let mut b0 = Block::new(0);
    b0.instrs.push(instr(0, "A", vec![]));
    b0.instrs.push(instr(1, "B", vec![]));
    let b1 = Block::new(1);
    let mut b2 = Block::new(2);
    b2.instrs.push(instr(2, "C", vec![]));
    o.blocks.push(b0);
    o.blocks.push(b1);
    o.blocks.push(b2);
    o
}

#[test]
fn iter_instrs_in_order() {
    let o = blocked_object();
    let mut it = o.iter_instrs();
    let mut ips = vec![];
    while let Some(i) = it.next() {
        ips.push(i.ip);
    }
    assert_eq!(ips, vec![0, 1, 2]);
    assert!(it.next().is_none());
    assert!(it.next_back().is_none());

    let mut flat = Object::new(1, 0, 0);
    flat.instrs.push(instr(10, "X", vec![]));
    flat.instrs.push(instr(11, "Y", vec![]));
    let mut it = flat.iter_instrs();
    assert_eq!(it.next_back().unwrap().ip, 11);
    assert_eq!(it.next().unwrap().ip, 10);
    assert!(it.next().is_none());
    assert!(it.next_back().is_none());
}

#[test]
fn iter_instrs_both_ends() {
    let o = blocked_object();
    let mut it = o.iter_instrs();
    assert_eq!(it.next_back().unwrap().ip, 2);
    assert_eq!(it.next().unwrap().ip, 0);
    assert_eq!(it.next_back().unwrap().ip, 1);
    assert!(it.next().is_none());
    assert!(it.next_back().is_none());

    let empty = Object::new(0, 0, 0);
    let mut it = empty.iter_instrs();
    assert!(it.next().is_none());
    assert!(it.next_back().is_none());
}

#[test]
fn iter_instrs_mut_modifies_in_place() {
    let mut o = blocked_object();
    {
        let mut it = o.iter_instrs_mut();
        while let Some(i) = it.next() {
            i.ip += 100;
        }
        assert!(it.next_back().is_none());
    }
    let ips: Vec<u32> = o.blocks.iter().flat_map(|b| b.instrs.iter().map(|i| i.ip)).collect();
    assert_eq!(ips, vec![100, 101, 102]);
    {
        let mut it = o.iter_instrs_mut();
        let last = it.next_back().unwrap();
        last.ip = 7;
        let first = it.next().unwrap();
        first.ip = 5;
    }
    assert_eq!(o.blocks[2].instrs[0].ip, 7);
    assert_eq!(o.blocks[0].instrs[0].ip, 5);
    assert_eq!(o.blocks[0].instrs[1].ip, 101);
}

#[test]
fn without_array_law_on_values() {
    for t in [
        DataType::Int8,
        DataType::Int16Array(3),
        DataType::String(0),
        DataType::FloatArray(9),
        DataType::Handle,
    ] {
        let e = t.without_array();
        assert_eq!(e.without_array(), e);
        assert!(!e.is_array());
        if !t.is_array() {
            assert_eq!(e, t);
        }
    }
}

#[test]
fn set_array_len_law_on_values() {
    let mut t = DataType::Int32Array(2);
    t.set_array_len(6);
    t.set_array_len(8);
    assert_eq!(t, DataType::Int32Array(8));
    assert_eq!(t.without_array(), DataType::Int32);
    let mut u = DataType::FloatArray(5);
    let n = u.array_len();
    u.set_array_len(n);
    assert_eq!(u, DataType::FloatArray(5));
}

#[test]
fn size_align_law_on_values() {
    for t in [DataType::Int16Array(7), DataType::String(9), DataType::FloatArray(1)] {
        assert_eq!(t.size() % t.align(), 0);
        assert_eq!(t.size(), t.array_len() as u32 * t.align());
    }
    assert_eq!(DataType::Int16.size(), DataType::Int16.align());
}

#[test]
fn constant_readings_law_on_values() {
    for x in [0, 1, -1, 255, 256, 300, -129, 70000, i32::MIN, i32::MAX] {
        let p = param(ParamType::Offset, ParamValue::Constant(x));
        assert_eq!(p.to_i16() as i8, p.to_i8());
        assert_eq!(p.to_u32() as i32, p.to_i32());
        assert_eq!(p.to_bool(), p.to_u32() % 256 != 0);
    }
}
