use vstd::prelude::*;

use crate::data_type::{param_type_text, ParamType};
use crate::param::{parameter_glyphs, Parameter};
use crate::program::{spec_is_subcall, Block, Image, Instruction, Object};
use crate::text::{
    decimal, decimal_string, glyphs, pad_left, pad_right, padded_left, padded_right,
    push_decimal, Glyph, TextOut,
};

verus! {

/// The textual form of each parameter in turn, each after a space.
pub open spec fn params_glyphs(ps: Seq<Parameter>, n: nat) -> Seq<Glyph>
    decreases n,
{
    if n == 0 {
        Seq::empty()
    } else {
        params_glyphs(ps, (n - 1) as nat) + glyphs(" "@) + parameter_glyphs(ps[n - 1])
    }
}

/// The textual form of an instruction: its address right-aligned in five
/// columns, `: `, its mnemonic left-aligned in twenty columns, then its
/// parameters, each after a space.
pub open spec fn instruction_glyphs(i: Instruction) -> Seq<Glyph> {
    glyphs(pad_left(decimal(i.ip as nat), 5) + ": "@ + pad_right(i.op.mnemonic@, 20)) + params_glyphs(
        i.params@,
        i.params@.len(),
    )
}

/// The first `n` instructions, each on a line of its own after `indent`.
pub open spec fn instr_lines(instrs: Seq<Instruction>, indent: Seq<char>, n: nat) -> Seq<Glyph>
    decreases n,
{
    if n == 0 {
        Seq::empty()
    } else {
        instr_lines(instrs, indent, (n - 1) as nat) + glyphs(indent) + instruction_glyphs(
            instrs[n - 1],
        ) + glyphs("\n"@)
    }
}

/// The textual form of a block: a `block <id> {` line, its instructions
/// indented by eight spaces, and a closing brace indented by four.
pub open spec fn block_glyphs(b: Block) -> Seq<Glyph> {
    glyphs("    block "@ + decimal(b.id as nat) + " {\n"@) + instr_lines(
        b.instrs@,
        "        "@,
        b.instrs@.len(),
    ) + glyphs("    }"@)
}

/// The first `n` blocks, each followed by a line break.
pub open spec fn block_lines(blocks: Seq<Block>, n: nat) -> Seq<Glyph>
    decreases n,
{
    if n == 0 {
        Seq::empty()
    } else {
        block_lines(blocks, (n - 1) as nat) + block_glyphs(blocks[n - 1]) + glyphs("\n"@)
    }
}

/// The first `n` parameter types, each after a space.
pub open spec fn proto_text(ps: Seq<ParamType>, n: nat) -> Seq<char>
    decreases n,
{
    if n == 0 {
        Seq::empty()
    } else {
        proto_text(ps, (n - 1) as nat) + " "@ + param_type_text(ps[n - 1])
    }
}

/// The header lines of an object's textual form.
pub open spec fn object_header_text(o: Object) -> Seq<char> {
    "object {\n"@ + "    owner_id: "@ + decimal(o.owner_id as nat) + "\n"@ + "    trigger_count: "@
        + decimal(o.trigger_count as nat) + "\n"@ + "    local_bytes: "@ + decimal(
        o.local_bytes as nat,
    ) + "\n"@
}

/// The prototype line of a subroutine's textual form; nothing for other
/// objects.
pub open spec fn object_proto_text(o: Object) -> Seq<char> {
    if spec_is_subcall(o) {
        "\n    proto:"@ + proto_text(o.params@, o.params@.len()) + "\n"@
    } else {
        Seq::empty()
    }
}

/// The textual form of an object: the header, the prototype of a
/// subroutine, a blank line, the flat instructions indented by four spaces,
/// the blocks, and a closing brace.
pub open spec fn object_glyphs(o: Object) -> Seq<Glyph> {
    glyphs(object_header_text(o) + object_proto_text(o) + "\n"@) + instr_lines(
        o.instrs@,
        "    "@,
        o.instrs@.len(),
    ) + block_lines(o.blocks@, o.blocks@.len()) + glyphs("}"@)
}

/// The first `n` objects, each after a blank line.
pub open spec fn objects_glyphs(objects: Seq<Object>, n: nat) -> Seq<Glyph>
    decreases n,
{
    if n == 0 {
        Seq::empty()
    } else {
        objects_glyphs(objects, (n - 1) as nat) + glyphs("\n\n"@) + object_glyphs(objects[n - 1])
    }
}

/// The textual form of an image: its version and global storage size, then
/// its objects, each after a blank line.
pub open spec fn image_glyphs(im: Image) -> Seq<Glyph> {
    glyphs("version: "@ + decimal(im.version as nat) + "\n"@ + "global_bytes: "@ + decimal(
        im.global_bytes as nat,
    )) + objects_glyphs(im.objects@, im.objects@.len())
}

/// The parameters of `a` followed by those of `b` are shown as the text of
/// `a`'s parameters followed by that of `b`'s; a single parameter is shown
/// after one space.
pub proof fn lemma_params_glyphs_concat(a: Seq<Parameter>, b: Seq<Parameter>)
    ensures
        params_glyphs(a + b, a.len() + b.len()) == params_glyphs(a, a.len()) + params_glyphs(
            b,
            b.len(),
        ),
        forall|p: Parameter|
            #![trigger parameter_glyphs(p)]
            params_glyphs(seq![p], 1) == glyphs(" "@) + parameter_glyphs(p),
{
    lemma_params_glyphs_prefix(a, b, b.len());
    assert forall|p: Parameter|
        #![trigger parameter_glyphs(p)]
        params_glyphs(seq![p], 1) == glyphs(" "@) + parameter_glyphs(p) by {
        assert(params_glyphs(seq![p], 0) =~= Seq::<Glyph>::empty());
        assert(params_glyphs(seq![p], 1) =~= glyphs(" "@) + parameter_glyphs(p));
    }
}

proof fn lemma_params_glyphs_ext(s: Seq<Parameter>, t: Seq<Parameter>, n: nat)
    requires
        n <= s.len(),
        n <= t.len(),
        forall|i: int| 0 <= i < n ==> s[i] == t[i],
    ensures
        params_glyphs(s, n) == params_glyphs(t, n),
    decreases n,
{
    if n > 0 {
        lemma_params_glyphs_ext(s, t, (n - 1) as nat);
    }
}

proof fn lemma_params_glyphs_prefix(a: Seq<Parameter>, b: Seq<Parameter>, k: nat)
    requires
        k <= b.len(),
    ensures
        params_glyphs(a + b, a.len() + k) == params_glyphs(a, a.len()) + params_glyphs(b, k),
    decreases k,
{
    if k == 0 {
        lemma_params_glyphs_ext(a + b, a, a.len());
        assert(params_glyphs(a, a.len()) + params_glyphs(b, 0) =~= params_glyphs(a, a.len()));
    } else {
        lemma_params_glyphs_prefix(a, b, (k - 1) as nat);
        assert((a + b)[a.len() + k - 1] == b[k - 1]);
        assert(params_glyphs(a + b, a.len() + k) =~= params_glyphs(a, a.len()) + params_glyphs(
            b,
            k,
        ));
    }
}

/// The lines of the instructions of `a` followed by those of `b` are the
/// lines of `a`'s instructions followed by those of `b`'s: instructions are
/// listed in order, each on a line of its own after the indent.
pub proof fn lemma_instr_lines_concat(a: Seq<Instruction>, b: Seq<Instruction>, indent: Seq<char>)
    ensures
        instr_lines(a + b, indent, a.len() + b.len()) == instr_lines(a, indent, a.len())
            + instr_lines(b, indent, b.len()),
        forall|i: Instruction|
            #![trigger instruction_glyphs(i)]
            instr_lines(seq![i], indent, 1) == glyphs(indent) + instruction_glyphs(i) + glyphs(
                "\n"@,
            ),
{
    lemma_instr_lines_prefix(a, b, indent, b.len());
    assert forall|i: Instruction|
        #![trigger instruction_glyphs(i)]
        instr_lines(seq![i], indent, 1) == glyphs(indent) + instruction_glyphs(i) + glyphs(
            "\n"@,
        ) by {
        assert(instr_lines(seq![i], indent, 0) =~= Seq::<Glyph>::empty());
        assert(instr_lines(seq![i], indent, 1) =~= glyphs(indent) + instruction_glyphs(i)
            + glyphs("\n"@));
    }
}

proof fn lemma_instr_lines_ext(s: Seq<Instruction>, t: Seq<Instruction>, indent: Seq<char>, n: nat)
    requires
        n <= s.len(),
        n <= t.len(),
        forall|i: int| 0 <= i < n ==> s[i] == t[i],
    ensures
        instr_lines(s, indent, n) == instr_lines(t, indent, n),
    decreases n,
{
    if n > 0 {
        lemma_instr_lines_ext(s, t, indent, (n - 1) as nat);
    }
}

proof fn lemma_instr_lines_prefix(
    a: Seq<Instruction>,
    b: Seq<Instruction>,
    indent: Seq<char>,
    k: nat,
)
    requires
        k <= b.len(),
    ensures
        instr_lines(a + b, indent, a.len() + k) == instr_lines(a, indent, a.len()) + instr_lines(
            b,
            indent,
            k,
        ),
    decreases k,
{
    if k == 0 {
        lemma_instr_lines_ext(a + b, a, indent, a.len());
        assert(instr_lines(a, indent, a.len()) + instr_lines(b, indent, 0) =~= instr_lines(
            a,
            indent,
            a.len(),
        ));
    } else {
        lemma_instr_lines_prefix(a, b, indent, (k - 1) as nat);
        assert((a + b)[a.len() + k - 1] == b[k - 1]);
        assert(instr_lines(a + b, indent, a.len() + k) =~= instr_lines(a, indent, a.len())
            + instr_lines(b, indent, k));
    }
}

/// The blocks of `a` followed by those of `b` are shown as the blocks of `a`
/// followed by those of `b`: blocks are listed in block order, each
/// followed by a line break.
pub proof fn lemma_block_lines_concat(a: Seq<Block>, b: Seq<Block>)
    ensures
        block_lines(a + b, a.len() + b.len()) == block_lines(a, a.len()) + block_lines(b, b.len()),
        forall|x: Block|
            #![trigger block_glyphs(x)]
            block_lines(seq![x], 1) == block_glyphs(x) + glyphs("\n"@),
{
    lemma_block_lines_prefix(a, b, b.len());
    assert forall|x: Block|
        #![trigger block_glyphs(x)]
        block_lines(seq![x], 1) == block_glyphs(x) + glyphs("\n"@) by {
        assert(block_lines(seq![x], 0) =~= Seq::<Glyph>::empty());
        assert(block_lines(seq![x], 1) =~= block_glyphs(x) + glyphs("\n"@));
    }
}

proof fn lemma_block_lines_ext(s: Seq<Block>, t: Seq<Block>, n: nat)
    requires
        n <= s.len(),
        n <= t.len(),
        forall|i: int| 0 <= i < n ==> s[i] == t[i],
    ensures
        block_lines(s, n) == block_lines(t, n),
    decreases n,
{
    if n > 0 {
        lemma_block_lines_ext(s, t, (n - 1) as nat);
    }
}

proof fn lemma_block_lines_prefix(a: Seq<Block>, b: Seq<Block>, k: nat)
    requires
        k <= b.len(),
    ensures
        block_lines(a + b, a.len() + k) == block_lines(a, a.len()) + block_lines(b, k),
    decreases k,
{
    if k == 0 {
        lemma_block_lines_ext(a + b, a, a.len());
        assert(block_lines(a, a.len()) + block_lines(b, 0) =~= block_lines(a, a.len()));
    } else {
        lemma_block_lines_prefix(a, b, (k - 1) as nat);
        assert((a + b)[a.len() + k - 1] == b[k - 1]);
        assert(block_lines(a + b, a.len() + k) =~= block_lines(a, a.len()) + block_lines(b, k));
    }
}

/// The prototype of parameter types `a` followed by `b` is that of `a`
/// followed by that of `b`; a single parameter type is shown after a space.
pub proof fn lemma_proto_text_concat(a: Seq<ParamType>, b: Seq<ParamType>)
    ensures
        proto_text(a + b, a.len() + b.len()) == proto_text(a, a.len()) + proto_text(b, b.len()),
        forall|p: ParamType|
            #![trigger param_type_text(p)]
            proto_text(seq![p], 1) == " "@ + param_type_text(p),
{
    lemma_proto_text_prefix(a, b, b.len());
    assert forall|p: ParamType|
        #![trigger param_type_text(p)]
        proto_text(seq![p], 1) == " "@ + param_type_text(p) by {
        assert(proto_text(seq![p], 0) =~= Seq::<char>::empty());
        assert(proto_text(seq![p], 1) =~= " "@ + param_type_text(p));
    }
}

proof fn lemma_proto_text_ext(s: Seq<ParamType>, t: Seq<ParamType>, n: nat)
    requires
        n <= s.len(),
        n <= t.len(),
        forall|i: int| 0 <= i < n ==> s[i] == t[i],
    ensures
        proto_text(s, n) == proto_text(t, n),
    decreases n,
{
    if n > 0 {
        lemma_proto_text_ext(s, t, (n - 1) as nat);
    }
}

proof fn lemma_proto_text_prefix(a: Seq<ParamType>, b: Seq<ParamType>, k: nat)
    requires
        k <= b.len(),
    ensures
        proto_text(a + b, a.len() + k) == proto_text(a, a.len()) + proto_text(b, k),
    decreases k,
{
    if k == 0 {
        lemma_proto_text_ext(a + b, a, a.len());
        assert(proto_text(a, a.len()) + proto_text(b, 0) =~= proto_text(a, a.len()));
    } else {
        lemma_proto_text_prefix(a, b, (k - 1) as nat);
        assert((a + b)[a.len() + k - 1] == b[k - 1]);
        assert(proto_text(a + b, a.len() + k) =~= proto_text(a, a.len()) + proto_text(b, k));
    }
}

/// The objects of `a` followed by those of `b` are shown as the objects of
/// `a` followed by those of `b`: objects are listed in image order, each
/// after a blank line.
pub proof fn lemma_objects_glyphs_concat(a: Seq<Object>, b: Seq<Object>)
    ensures
        objects_glyphs(a + b, a.len() + b.len()) == objects_glyphs(a, a.len()) + objects_glyphs(
            b,
            b.len(),
        ),
        forall|o: Object|
            #![trigger object_glyphs(o)]
            objects_glyphs(seq![o], 1) == glyphs("\n\n"@) + object_glyphs(o),
{
    lemma_objects_glyphs_prefix(a, b, b.len());
    assert forall|o: Object|
        #![trigger object_glyphs(o)]
        objects_glyphs(seq![o], 1) == glyphs("\n\n"@) + object_glyphs(o) by {
        assert(objects_glyphs(seq![o], 0) =~= Seq::<Glyph>::empty());
        assert(objects_glyphs(seq![o], 1) =~= glyphs("\n\n"@) + object_glyphs(o));
    }
}

proof fn lemma_objects_glyphs_ext(s: Seq<Object>, t: Seq<Object>, n: nat)
    requires
        n <= s.len(),
        n <= t.len(),
        forall|i: int| 0 <= i < n ==> s[i] == t[i],
    ensures
        objects_glyphs(s, n) == objects_glyphs(t, n),
    decreases n,
{
    if n > 0 {
        lemma_objects_glyphs_ext(s, t, (n - 1) as nat);
    }
}

proof fn lemma_objects_glyphs_prefix(a: Seq<Object>, b: Seq<Object>, k: nat)
    requires
        k <= b.len(),
    ensures
        objects_glyphs(a + b, a.len() + k) == objects_glyphs(a, a.len()) + objects_glyphs(b, k),
    decreases k,
{
    if k == 0 {
        lemma_objects_glyphs_ext(a + b, a, a.len());
        assert(objects_glyphs(a, a.len()) + objects_glyphs(b, 0) =~= objects_glyphs(a, a.len()));
    } else {
        lemma_objects_glyphs_prefix(a, b, (k - 1) as nat);
        let ab = a + b;
        let n = (a.len() + k) as nat;
        assert(ab[n - 1] == b[k - 1]);
        let x = object_glyphs(b[k - 1]);
        assert(objects_glyphs(ab, n) == objects_glyphs(ab, (n - 1) as nat) + glyphs("\n\n"@) + x);
        assert(objects_glyphs(b, k) == objects_glyphs(b, (k - 1) as nat) + glyphs("\n\n"@) + x);
        assert(objects_glyphs(a + b, a.len() + k) =~= objects_glyphs(a, a.len()) + objects_glyphs(
            b,
            k,
        ));
    }
}

/// An object's text carries a prototype line exactly when the object is a
/// subroutine (owned by no object and triggered once), and that line lists
/// its parameter types in order.
pub proof fn lemma_object_proto(o: Object)
    ensures
        (o.owner_id == 0 && o.trigger_count == 1) ==> object_proto_text(o) == "\n    proto:"@
            + proto_text(o.params@, o.params@.len()) + "\n"@,
        !(o.owner_id == 0 && o.trigger_count == 1) ==> object_proto_text(o).len() == 0,
{
}

impl Instruction {
    /// Appends the textual form of this instruction (see `instruction_glyphs`).
    pub fn fmt(&self, out: &mut TextOut)
        ensures
            final(out)@ == old(out)@ + instruction_glyphs(*self),
    {
        let ip = decimal_string(self.ip);
        let mut head = padded_left(ip.as_str(), 5);
        head.append(": ");
        let op = padded_right(self.op.to_str(), 20);
        head.append(op.as_str());
        out.push_string(head);
        let ghost start = out@;
        let mut k: usize = 0;
        while k < self.params.len()
            invariant
                k <= self.params@.len(),
                out@ == start + params_glyphs(self.params@, k as nat),
            decreases self.params@.len() - k,
        {
            out.push_str(" ");
            self.params[k].fmt(out);
            k = k + 1;
            assert(out@ =~= start + params_glyphs(self.params@, k as nat));
        }
        assert(out@ =~= old(out)@ + instruction_glyphs(*self));
    }
}

/// Appends each instruction on a line of its own after `indent`.
fn fmt_instr_lines(instrs: &Vec<Instruction>, indent: &str, out: &mut TextOut)
    ensures
        final(out)@ == old(out)@ + instr_lines(instrs@, indent@, instrs@.len()),
{
    let mut k: usize = 0;
    while k < instrs.len()
        invariant
            k <= instrs@.len(),
            out@ == old(out)@ + instr_lines(instrs@, indent@, k as nat),
        decreases instrs@.len() - k,
    {
        out.push_str(indent);
        instrs[k].fmt(out);
        out.push_str("\n");
        k = k + 1;
        assert(out@ =~= old(out)@ + instr_lines(instrs@, indent@, k as nat));
    }
}

impl Block {
    /// Appends the textual form of this block (see `block_glyphs`).
    pub fn fmt(&self, out: &mut TextOut)
        ensures
            final(out)@ == old(out)@ + block_glyphs(*self),
    {
        let mut head = String::from_str("    block ");
        push_decimal(&mut head, self.id);
        head.append(" {\n");
        out.push_string(head);
        fmt_instr_lines(&self.instrs, "        ", out);
        out.push_str("    }");
        assert(out@ =~= old(out)@ + block_glyphs(*self));
    }
}

impl Object {
    /// Appends the textual form of this object (see `object_glyphs`).
    pub fn fmt(&self, out: &mut TextOut)
        ensures
            final(out)@ == old(out)@ + object_glyphs(*self),
    {
        let mut head = String::from_str("object {\n");
        head.append("    owner_id: ");
        push_decimal(&mut head, self.owner_id as u32);
        head.append("\n");
        head.append("    trigger_count: ");
        push_decimal(&mut head, self.trigger_count as u32);
        head.append("\n");
        head.append("    local_bytes: ");
        push_decimal(&mut head, self.local_bytes);
        head.append("\n");
        assert(head@ =~= object_header_text(*self));
        if self.is_subcall() {
            let ghost before = head@;
            head.append("\n    proto:");
            let mut k: usize = 0;
            while k < self.params.len()
                invariant
                    k <= self.params@.len(),
                    head@ == before + "\n    proto:"@ + proto_text(self.params@, k as nat),
                decreases self.params@.len() - k,
            {
                head.append(" ");
                head.append(self.params[k].to_string().as_str());
                k = k + 1;
                assert(head@ =~= before + "\n    proto:"@ + proto_text(self.params@, k as nat));
            }
            head.append("\n");
            assert(head@ =~= object_header_text(*self) + object_proto_text(*self));
        }
        head.append("\n");
        assert(head@ =~= object_header_text(*self) + object_proto_text(*self) + "\n"@);
        out.push_string(head);
        fmt_instr_lines(&self.instrs, "    ", out);
        let ghost start = out@;
        let mut k: usize = 0;
        while k < self.blocks.len()
            invariant
                k <= self.blocks@.len(),
                out@ == start + block_lines(self.blocks@, k as nat),
            decreases self.blocks@.len() - k,
        {
            self.blocks[k].fmt(out);
            out.push_str("\n");
            k = k + 1;
            assert(out@ =~= start + block_lines(self.blocks@, k as nat));
        }
        out.push_str("}");
        assert(out@ =~= old(out)@ + object_glyphs(*self));
    }
}

impl Image {
    /// Appends the textual form of this image (see `image_glyphs`).
    pub fn fmt(&self, out: &mut TextOut)
        ensures
            final(out)@ == old(out)@ + image_glyphs(*self),
    {
        let mut head = String::from_str("version: ");
        push_decimal(&mut head, self.version as u32);
        head.append("\n");
        head.append("global_bytes: ");
        push_decimal(&mut head, self.global_bytes);
        out.push_string(head);
        let ghost start = out@;
        let mut k: usize = 0;
        while k < self.objects.len()
            invariant
                k <= self.objects@.len(),
                out@ == start + objects_glyphs(self.objects@, k as nat),
            decreases self.objects@.len() - k,
        {
            out.push_str("\n\n");
            self.objects[k].fmt(out);
            k = k + 1;
            assert(out@ =~= start + objects_glyphs(self.objects@, k as nat));
        }
        assert(out@ =~= old(out)@ + image_glyphs(*self));
    }
}

} // verus!
