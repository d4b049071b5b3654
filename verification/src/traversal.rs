use vstd::prelude::*;

use crate::program::{
    all_instrs, num_runs, run, run_start, runs_prefix, single_code_form, Instruction, Object,
};

verus! {

proof fn lemma_run_start_mono(o: Object, s: nat, t: nat)
    requires
        s <= t,
    ensures
        run_start(o, s) <= run_start(o, t),
    decreases t,
{
    if s < t {
        lemma_run_start_mono(o, s, (t - 1) as nat);
    }
}

proof fn lemma_runs_prefix_index(o: Object, n: nat, s: nat, off: int)
    requires
        s < n,
        0 <= off < run(o, s as int).len(),
    ensures
        run_start(o, s) + off < runs_prefix(o, n).len(),
        runs_prefix(o, n)[run_start(o, s) + off] == run(o, s as int)[off],
    decreases n,
{
    if s + 1 < n {
        lemma_runs_prefix_index(o, (n - 1) as nat, s, off);
    }
}

impl Object {
    /// A double-ended traversal of all instructions in program order.
    pub fn iter_instrs(&self) -> (it: ObjectInstrIter<'_>)
        requires
            single_code_form(*self),
        ensures
            it.object() == *self,
            it.remaining() == all_instrs(*self),
    {
        let last = self.blocks.len();
        let last_len = run_len(self, last);
        let it = ObjectInstrIter {
            object: self,
            front_run: 0,
            front_off: 0,
            back_run: last,
            back_off: last_len,
        };
        assert(it.remaining() =~= all_instrs(*self));
        it
    }
}

/// The length of run `s` of an object.
fn run_len(o: &Object, s: usize) -> (r: usize)
    requires
        s < num_runs(*o),
    ensures
        r == run(*o, s as int).len(),
{
    if s == 0 {
        o.instrs.len()
    } else {
        o.blocks[s - 1].instrs.len()
    }
}

/// Run `s` of an object.
fn run_of<'a>(o: &'a Object, s: usize) -> (r: &'a Vec<Instruction>)
    requires
        s < num_runs(*o),
    ensures
        r@ == run(*o, s as int),
{
    if s == 0 {
        &o.instrs
    } else {
        &o.blocks[s - 1].instrs
    }
}

/// Whether two objects differ at most in the contents of their instructions:
/// same header, parameters, block identifiers and run lengths.
pub open spec fn same_layout(a: Object, b: Object) -> bool {
    &&& a.owner_id == b.owner_id
    &&& a.trigger_count == b.trigger_count
    &&& a.local_bytes == b.local_bytes
    &&& a.last_ip == b.last_ip
    &&& a.params@ == b.params@
    &&& a.instrs@.len() == b.instrs@.len()
    &&& a.blocks@.len() == b.blocks@.len()
    &&& forall|k: int|
        #![trigger a.blocks@[k]]
        0 <= k < a.blocks@.len() ==> a.blocks@[k].id == b.blocks@[k].id
            && a.blocks@[k].instrs@.len() == b.blocks@[k].instrs@.len()
}

/// Replacing one instruction of run `s` changes the flattened program at
/// the matching position only.
proof fn lemma_runs_prefix_update(o: Object, p: Object, n: nat, s: nat, off: int, x: Instruction)
    requires
        num_runs(p) == num_runs(o),
        s < num_runs(o),
        0 <= off < run(o, s as int).len(),
        run(p, s as int) == run(o, s as int).update(off, x),
        forall|t: int| 0 <= t < num_runs(o) && t != s ==> run(p, t) == run(o, t),
    ensures
        n <= s ==> runs_prefix(p, n) == runs_prefix(o, n),
        s < n <= num_runs(o) ==> runs_prefix(p, n) == runs_prefix(o, n).update(
            run_start(o, s) + off,
            x,
        ),
    decreases n,
{
    if n > 0 {
        lemma_runs_prefix_update(o, p, (n - 1) as nat, s, off, x);
        if n <= num_runs(o) {
            if s < n - 1 {
                lemma_runs_prefix_index(o, (n - 1) as nat, s, off);
                assert(runs_prefix(p, n) =~= runs_prefix(o, n).update(run_start(o, s) + off, x));
            } else if s == n - 1 {
                assert(runs_prefix(p, n) =~= runs_prefix(o, n).update(run_start(o, s) + off, x));
            }
        }
    }
}

proof fn lemma_same_layout_run_start(a: Object, b: Object, n: nat)
    requires
        same_layout(a, b),
        n <= num_runs(a),
    ensures
        run_start(a, n) == run_start(b, n),
    decreases n,
{
    if n > 0 {
        lemma_same_layout_run_start(a, b, (n - 1) as nat);
        if n > 1 {
            assert(a.blocks@[n - 2].instrs@.len() == b.blocks@[n - 2].instrs@.len());
        }
    }
}

/// Objects of the same layout have runs of the same lengths at the same
/// positions.
proof fn lemma_same_layout(a: Object, b: Object)
    requires
        same_layout(a, b),
    ensures
        num_runs(a) == num_runs(b),
        forall|t: int| 0 <= t < num_runs(a) ==> #[trigger] run(a, t).len() == run(b, t).len(),
        forall|n: nat| n <= num_runs(a) ==> #[trigger] run_start(a, n) == run_start(b, n),
        all_instrs(a).len() == all_instrs(b).len(),
{
    assert forall|t: int| 0 <= t < num_runs(a) implies #[trigger] run(a, t).len() == run(
        b,
        t,
    ).len() by {
        if t > 0 {
            assert(a.blocks@[t - 1].instrs@.len() == b.blocks@[t - 1].instrs@.len());
        }
    }
    assert forall|n: nat| n <= num_runs(a) implies #[trigger] run_start(a, n) == run_start(
        b,
        n,
    ) by {
        lemma_same_layout_run_start(a, b, n);
    }
    lemma_same_layout_run_start(a, b, num_runs(a));
}

/// A double-ended traversal of an object's instructions in program order.
///
/// The front and back ends are positions `(run, offset)`; the instructions
/// not yet handed out are those between them.
pub struct ObjectInstrIter<'a> {
    object: &'a Object,
    front_run: usize,
    front_off: usize,
    back_run: usize,
    back_off: usize,
}

impl<'a> ObjectInstrIter<'a> {
    /// The object traversed.
    pub closed spec fn object(self) -> Object {
        *self.object
    }

    closed spec fn front(self) -> nat {
        run_start(*self.object, self.front_run as nat) + self.front_off as nat
    }

    closed spec fn back(self) -> nat {
        run_start(*self.object, self.back_run as nat) + self.back_off as nat
    }

    #[verifier::type_invariant]
    closed spec fn well_formed(self) -> bool {
        &&& self.front_run <= self.back_run < num_runs(*self.object)
        &&& self.front_off <= run(*self.object, self.front_run as int).len()
        &&& self.back_off <= run(*self.object, self.back_run as int).len()
        &&& self.front() <= self.back()
    }

    /// The instructions not yet handed out, in program order.
    pub closed spec fn remaining(self) -> Seq<Instruction> {
        all_instrs(*self.object).subrange(self.front() as int, self.back() as int)
    }

    proof fn lemma_remaining(self)
        requires
            self.well_formed(),
        ensures
            self.back() <= all_instrs(*self.object).len(),
            self.remaining().len() == self.back() - self.front(),
    {
        let o = *self.object;
        lemma_run_start_mono(o, (self.back_run + 1) as nat, num_runs(o));
    }

    /// Hands out the next instruction from the front, if any is left.
    pub fn next(&mut self) -> (r: Option<&'a Instruction>)
        ensures
            final(self).object() == old(self).object(),
            old(self).remaining().len() == 0 ==> r is None && final(self).remaining()
                == old(self).remaining(),
            old(self).remaining().len() > 0 ==> (r matches Some(i) && *i == old(self).remaining()[0]
                && final(self).remaining() == old(self).remaining().drop_first()),
    {
        proof {
            use_type_invariant(&*self);
            self.lemma_remaining();
        }
        let o: &'a Object = self.object;
        let ghost go = *o;
        let back_run = self.back_run;
        let back_off = self.back_off;
        let mut fr = self.front_run;
        let mut fo = self.front_off;
        while fr < back_run && fo == run_len(o, fr)
            invariant
                fr <= back_run < num_runs(go),
                fo <= run(go, fr as int).len(),
                run_start(go, fr as nat) + fo == old(self).front(),
                go == *o,
            decreases back_run - fr,
        {
            fr = fr + 1;
            fo = 0;
        }
        if fr == back_run && fo == back_off {
            return None;
        }
        proof {
            if fr < back_run {
                lemma_run_start_mono(go, (fr + 1) as nat, back_run as nat);
            }
            lemma_runs_prefix_index(go, num_runs(go), fr as nat, fo as int);
        }
        let item = &run_of(o, fr)[fo];
        *self = ObjectInstrIter {
            object: o,
            front_run: fr,
            front_off: fo + 1,
            back_run: back_run,
            back_off: back_off,
        };
        assert(self.remaining() =~= old(self).remaining().drop_first());
        Some(item)
    }

    /// Hands out the next instruction from the back, if any is left.
    pub fn next_back(&mut self) -> (r: Option<&'a Instruction>)
        ensures
            final(self).object() == old(self).object(),
            old(self).remaining().len() == 0 ==> r is None && final(self).remaining()
                == old(self).remaining(),
            old(self).remaining().len() > 0 ==> (r matches Some(i) && *i == old(
                self,
            ).remaining().last() && final(self).remaining() == old(self).remaining().drop_last()),
    {
        proof {
            use_type_invariant(&*self);
            self.lemma_remaining();
        }
        let o: &'a Object = self.object;
        let ghost go = *o;
        let front_run = self.front_run;
        let front_off = self.front_off;
        let mut br = self.back_run;
        let mut bo = self.back_off;
        while front_run < br && bo == 0
            invariant
                front_run <= br < num_runs(go),
                bo <= run(go, br as int).len(),
                run_start(go, br as nat) + bo == old(self).back(),
                go == *o,
            decreases br,
        {
            br = br - 1;
            bo = run_len(o, br);
        }
        if br == front_run && bo == front_off {
            return None;
        }
        proof {
            if front_run < br {
                lemma_run_start_mono(go, (front_run + 1) as nat, br as nat);
            }
            lemma_runs_prefix_index(go, num_runs(go), br as nat, bo - 1);
        }
        let item = &run_of(o, br)[bo - 1];
        *self = ObjectInstrIter {
            object: o,
            front_run: front_run,
            front_off: front_off,
            back_run: br,
            back_off: bo - 1,
        };
        assert(self.remaining() =~= old(self).remaining().drop_last());
        Some(item)
    }
}

impl Object {
    /// A double-ended traversal of all instructions in program order that
    /// hands out each instruction for modification.
    pub fn iter_instrs_mut(&mut self) -> (it: ObjectInstrIterMut<'_>)
        requires
            single_code_form(*old(self)),
        ensures
            it.well_formed(),
            it.current() == *old(self),
            it.remaining() == all_instrs(*old(self)),
            it.front() == 0,
            it.back() == all_instrs(*old(self)).len(),
            *final(it.target()) == *final(self),
    {
        let last = self.blocks.len();
        let last_len = run_len(self, last);
        let it = ObjectInstrIterMut {
            object: self,
            front_run: 0,
            front_off: 0,
            back_run: last,
            back_off: last_len,
        };
        assert(it.remaining() =~= all_instrs(it.current()));
        proof {
            it.lemma_remaining();
        }
        it
    }
}

/// A double-ended traversal of an object's instructions in program order
/// that hands out each instruction for modification.
///
/// The front and back ends are positions `(run, offset)`; the instructions
/// not yet handed out are those between them.
pub struct ObjectInstrIterMut<'a> {
    object: &'a mut Object,
    front_run: usize,
    front_off: usize,
    back_run: usize,
    back_off: usize,
}

impl<'a> ObjectInstrIterMut<'a> {
    /// The object traversed, as it stands now.
    pub closed spec fn current(self) -> Object {
        *self.object
    }

    /// The borrow of the object that the traversal holds.
    pub closed spec fn target(self) -> &'a mut Object {
        self.object
    }

    /// The position, in program order, of the next instruction from the front.
    pub closed spec fn front(self) -> nat {
        run_start(*self.object, self.front_run as nat) + self.front_off as nat
    }

    /// The position, in program order, just past the next instruction from the back.
    pub closed spec fn back(self) -> nat {
        run_start(*self.object, self.back_run as nat) + self.back_off as nat
    }

    /// The traversal's ends lie within the object, front before back.
    pub closed spec fn well_formed(self) -> bool {
        &&& self.front_run <= self.back_run < num_runs(*self.object)
        &&& self.front_off <= run(*self.object, self.front_run as int).len()
        &&& self.back_off <= run(*self.object, self.back_run as int).len()
        &&& self.front() <= self.back()
        &&& self.back() <= all_instrs(*self.object).len()
    }

    /// The instructions not yet handed out, in program order.
    pub closed spec fn remaining(self) -> Seq<Instruction> {
        all_instrs(*self.object).subrange(self.front() as int, self.back() as int)
    }

    /// Once the traversal is no longer used, the object it borrowed is left
    /// as the traversal last saw it.
    pub proof fn lemma_resolved(self)
        requires
            has_resolved(self),
        ensures
            self.current() == *final(self.target()),
    {
    }

    /// The instructions not yet handed out are those of the object between
    /// the front and back positions.
    pub proof fn lemma_remaining(self)
        requires
            self.well_formed(),
        ensures
            self.front() <= self.back() <= all_instrs(self.current()).len(),
            self.remaining() == all_instrs(self.current()).subrange(
                self.front() as int,
                self.back() as int,
            ),
            self.remaining().len() == self.back() - self.front(),
    {
    }

    /// Hands out the next instruction from the front, if any is left, for
    /// modification.
    pub fn next(&mut self) -> (r: Option<&mut Instruction>)
        requires
            old(self).well_formed(),
        ensures
            final(self).well_formed(),
            *final(final(self).target()) == *final(old(self).target()),
            old(self).remaining().len() == 0 ==> r is None && final(self).current() == old(
                self,
            ).current() && final(self).remaining() == old(self).remaining(),
            old(self).remaining().len() > 0 ==> (r matches Some(i) && *i == old(self).remaining()[0]
                && same_layout(final(self).current(), old(self).current()) && all_instrs(
                final(self).current(),
            ) == all_instrs(old(self).current()).update(old(self).front() as int, *final(i))
                && final(self).front() == old(self).front() + 1 && final(self).back() == old(
                self,
            ).back() && final(self).remaining() == old(self).remaining().drop_first()),
    {
        proof {
            self.lemma_remaining();
        }
        let ghost go = *self.object;
        let back_run = self.back_run;
        let back_off = self.back_off;
        let mut fr = self.front_run;
        let mut fo = self.front_off;
        while fr < back_run && fo == run_len(&*self.object, fr)
            invariant
                fr <= back_run < num_runs(go),
                fo <= run(go, fr as int).len(),
                run_start(go, fr as nat) + fo == old(self).front(),
                go == *self.object,
            decreases back_run - fr,
        {
            fr = fr + 1;
            fo = 0;
        }
        if fr == back_run && fo == back_off {
            return None;
        }
        proof {
            if fr < back_run {
                lemma_run_start_mono(go, (fr + 1) as nat, back_run as nat);
            }
            lemma_runs_prefix_index(go, num_runs(go), fr as nat, fo as int);
        }
        self.front_run = fr;
        self.front_off = fo + 1;
        Some(run_item_mut(self.object, fr, fo))
    }
}

impl<'a> ObjectInstrIterMut<'a> {
    /// Hands out the next instruction from the back, if any is left, for
    /// modification.
    pub fn next_back(&mut self) -> (r: Option<&mut Instruction>)
        requires
            old(self).well_formed(),
        ensures
            final(self).well_formed(),
            *final(final(self).target()) == *final(old(self).target()),
            old(self).remaining().len() == 0 ==> r is None && final(self).current() == old(
                self,
            ).current() && final(self).remaining() == old(self).remaining(),
            old(self).remaining().len() > 0 ==> (r matches Some(i) && *i == old(
                self,
            ).remaining().last() && same_layout(final(self).current(), old(self).current())
                && all_instrs(final(self).current()) == all_instrs(old(self).current()).update(
                old(self).back() - 1,
                *final(i),
            ) && final(self).front() == old(self).front() && final(self).back() == old(
                self,
            ).back() - 1 && final(self).remaining() == old(self).remaining().drop_last()),
    {
        proof {
            self.lemma_remaining();
        }
        let ghost go = *self.object;
        let front_run = self.front_run;
        let front_off = self.front_off;
        let mut br = self.back_run;
        let mut bo = self.back_off;
        while front_run < br && bo == 0
            invariant
                front_run <= br < num_runs(go),
                bo <= run(go, br as int).len(),
                run_start(go, br as nat) + bo == old(self).back(),
                go == *self.object,
            decreases br,
        {
            br = br - 1;
            bo = run_len(&*self.object, br);
        }
        if br == front_run && bo == front_off {
            return None;
        }
        proof {
            if front_run < br {
                lemma_run_start_mono(go, (front_run + 1) as nat, br as nat);
            }
            lemma_runs_prefix_index(go, num_runs(go), br as nat, bo - 1);
        }
        self.back_run = br;
        self.back_off = bo - 1;
        Some(run_item_mut(self.object, br, bo - 1))
    }
}

/// Instruction `off` of run `s` of an object, for modification.
fn run_item_mut(o: &mut Object, s: usize, off: usize) -> (r: &mut Instruction)
    requires
        s < num_runs(*old(o)),
        off < run(*old(o), s as int).len(),
    ensures
        *r == run(*old(o), s as int)[off as int],
        same_layout(*final(o), *old(o)),
        all_instrs(*final(o)) == all_instrs(*old(o)).update(
            run_start(*old(o), s as nat) + off,
            *final(r),
        ),
        num_runs(*final(o)) == num_runs(*old(o)),
        forall|t: int|
            0 <= t < num_runs(*old(o)) ==> #[trigger] run(*final(o), t).len() == run(
                *old(o),
                t,
            ).len(),
        forall|n: nat|
            n <= num_runs(*old(o)) ==> #[trigger] run_start(*final(o), n) == run_start(*old(o), n),
{
    let ghost go = *o;
    let ghost p = *final(o);
    if s == 0 {
        let r = &mut o.instrs[off];
        proof {
            assert forall|t: int| 0 <= t < num_runs(go) && t != s implies run(p, t) == run(go, t) by {}
            lemma_runs_prefix_update(go, p, num_runs(go), s as nat, off as int, *final(r));
            lemma_same_layout(p, go);
        }
        r
    } else {
        let r = &mut o.blocks[s - 1].instrs[off];
        proof {
            assert forall|t: int| 0 <= t < num_runs(go) && t != s implies run(p, t) == run(go, t) by {}
            lemma_runs_prefix_update(go, p, num_runs(go), s as nat, off as int, *final(r));
            lemma_same_layout(p, go);
        }
        r
    }
}

} // verus!
