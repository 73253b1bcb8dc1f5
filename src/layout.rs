//! Packed byte layout of a uniform block: every field starts at an offset
//! that is a multiple of its own size.
use vstd::prelude::*;
use crate::variable::{Variable, var_size, var_bytes};

verus! {

/// The values of a list of named fields.
pub open spec fn field_values(fields: Seq<(String, Variable)>) -> Seq<Variable> {
    fields.map_values(|f: (String, Variable)| f.1)
}

/// The smallest multiple of `a` that is not below `n`.
pub open spec fn align_up(n: nat, a: nat) -> nat
    recommends
        a > 0,
{
    if n % a == 0 {
        n
    } else {
        n + (a - n % a) as nat
    }
}

/// End of the packed layout of `vars`: the byte just past the last field.
pub open spec fn packed_end(vars: Seq<Variable>) -> nat
    decreases vars.len(),
{
    if vars.len() == 0 {
        0
    } else {
        let last = vars.last();
        align_up(packed_end(vars.drop_last()), var_size(last)) + var_size(last)
    }
}

/// Offset of field `i` in the packed layout of `vars`.
pub open spec fn field_offset(vars: Seq<Variable>, i: int) -> nat {
    align_up(packed_end(vars.take(i)), var_size(vars[i]))
}

/// Packed contents: zeros before each field up to its offset, then its bytes.
pub open spec fn packed_bytes(vars: Seq<Variable>) -> Seq<u8>
    decreases vars.len(),
{
    if vars.len() == 0 {
        Seq::empty()
    } else {
        let prev = packed_bytes(vars.drop_last());
        let last = vars.last();
        prev + Seq::new((align_up(prev.len(), var_size(last)) - prev.len()) as nat, |k: int| 0u8)
            + var_bytes(last)
    }
}

pub proof fn lemma_align_up(n: nat, a: nat)
    requires
        a > 0,
    ensures
        align_up(n, a) % a == 0,
        n <= align_up(n, a) < n + a,
{
    if n % a != 0 {
        let q = n as int / a as int;
        let r = n as int % a as int;
        vstd::arithmetic::div_mod::lemma_fundamental_div_mod(n as int, a as int);
        assert(n as int + (a as int - r) == a as int * (q + 1)) by (nonlinear_arith)
            requires
                n as int == a as int * q + r,
        ;
        vstd::arithmetic::div_mod::lemma_mod_multiples_basic(q + 1, a as int);
    }
}

pub proof fn lemma_sizes(v: Variable)
    ensures
        var_size(v) > 0,
        var_bytes(v).len() == var_size(v),
{
}

/// The packed contents are exactly as long as the layout.
pub proof fn lemma_packed_len(vars: Seq<Variable>)
    ensures
        packed_bytes(vars).len() == packed_end(vars),
    decreases vars.len(),
{
    if vars.len() > 0 {
        lemma_packed_len(vars.drop_last());
        lemma_sizes(vars.last());
        lemma_align_up(packed_end(vars.drop_last()), var_size(vars.last()));
    }
}

/// Layout law: the total size is a multiple of the last field's size, every
/// field starts at a multiple of its own size, and fields follow each other
/// without overlap, the last one ending at the total size.
pub proof fn lemma_layout_aligned(vars: Seq<Variable>)
    ensures
        vars.len() > 0 ==> packed_end(vars) % var_size(vars.last()) == 0,
        forall|i: int| 0 <= i < vars.len() ==> #[trigger] field_offset(vars, i) % var_size(vars[i]) == 0,
        forall|i: int| 0 <= i < vars.len() - 1 ==>
            #[trigger] field_offset(vars, i) + var_size(vars[i]) <= field_offset(vars, i + 1),
        vars.len() > 0 ==> field_offset(vars, vars.len() - 1) + var_size(vars.last()) == packed_end(vars),
{
    assert forall|i: int| 0 <= i < vars.len() implies #[trigger] field_offset(vars, i) % var_size(vars[i]) == 0 by {
        lemma_sizes(vars[i]);
        lemma_align_up(packed_end(vars.take(i)), var_size(vars[i]));
    }
    assert forall|i: int| 0 <= i < vars.len() - 1 implies
        #[trigger] field_offset(vars, i) + var_size(vars[i]) <= field_offset(vars, i + 1) by {
        lemma_sizes(vars[i + 1]);
        assert(vars.take(i + 1).drop_last() =~= vars.take(i));
        assert(vars.take(i + 1).last() == vars[i]);
        lemma_align_up(packed_end(vars.take(i + 1)), var_size(vars[i + 1]));
    }
    if vars.len() > 0 {
        let last = vars.last();
        lemma_sizes(last);
        assert(vars.take(vars.len() - 1) =~= vars.drop_last());
        let start = align_up(packed_end(vars.drop_last()), var_size(last));
        lemma_align_up(packed_end(vars.drop_last()), var_size(last));
        vstd::arithmetic::div_mod::lemma_mod_adds(start as int, var_size(last) as int, var_size(last) as int);
        vstd::arithmetic::div_mod::lemma_mod_self_0(var_size(last) as int);
    }
}

/// `n` rounded up to a multiple of `a`.
pub fn align_to(n: u64, a: u64) -> (r: u64)
    requires
        a > 0,
        n + a <= u64::MAX,
    ensures
        r == align_up(n as nat, a as nat),
{
    if n % a == 0 {
        n
    } else {
        n + (a - n % a)
    }
}

/// Total byte size of the packed layout of `vars`.
pub fn packed_size(vars: &Vec<(String, Variable)>) -> (r: u64)
    requires
        vars@.len() < 0x1_0000_0000,
    ensures
        r == packed_end(field_values(vars@)),
{
    let ghost kinds = field_values(vars@);
    let mut size: u64 = 0;
    let mut i: usize = 0;
    while i < vars.len()
        invariant
            kinds == field_values(vars@),
            i <= vars@.len() < 0x1_0000_0000,
            size == packed_end(kinds.take(i as int)),
            size <= 32 * i,
        decreases vars@.len() - i,
    {
        let s = vars[i].1.size() as u64;
        proof {
            lemma_align_up(size as nat, s as nat);
            assert(kinds.take(i + 1).drop_last() =~= kinds.take(i as int));
        }
        size = align_to(size, s) + s;
        i = i + 1;
    }
    assert(kinds.take(i as int) =~= kinds);
    size
}

/// Appends the packed contents of `vars` to `out`.
pub fn pack_into(vars: &Vec<(String, Variable)>, out: &mut Vec<u8>)
    requires
        vars@.len() < 0x1_0000_0000,
    ensures
        final(out)@ == old(out)@ + packed_bytes(field_values(vars@)),
{
    let ghost kinds = field_values(vars@);
    let ghost start = old(out)@;
    let mut offset: u64 = 0;
    let mut i: usize = 0;
    while i < vars.len()
        invariant
            kinds == field_values(vars@),
            i <= vars@.len() < 0x1_0000_0000,
            out@ == start + packed_bytes(kinds.take(i as int)),
            offset == packed_bytes(kinds.take(i as int)).len(),
            offset <= 32 * i,
        decreases vars@.len() - i,
    {
        let var = &vars[i].1;
        let s = var.size() as u64;
        proof {
            lemma_packed_len(kinds.take(i as int));
            lemma_sizes(*var);
            lemma_align_up(offset as nat, s as nat);
            assert(kinds.take(i + 1).drop_last() =~= kinds.take(i as int));
            assert(kinds.take(i + 1).last() == *var);
        }
        let ghost before = out@;
        let target = align_to(offset, s);
        while offset < target
            invariant
                offset <= target,
                out@.len() == before.len() + (offset - packed_bytes(kinds.take(i as int)).len()),
                packed_bytes(kinds.take(i as int)).len() <= offset,
                out@.subrange(0, before.len() as int) == before,
                forall|k: int| before.len() <= k < out@.len() ==> out@[k] == 0u8,
            decreases target - offset,
        {
            out.push(0);
            offset = offset + 1;
        }
        let b = var.bytes();
        let ghost padded = out@;
        let mut j: usize = 0;
        while j < b.len()
            invariant
                j <= b@.len(),
                b@ == var_bytes(*var),
                out@ == padded + b@.take(j as int),
            decreases b@.len() - j,
        {
            out.push(b[j]);
            j = j + 1;
            assert(out@ =~= padded + b@.take(j as int));
        }
        offset = offset + s;
        i = i + 1;
        proof {
            let prev = packed_bytes(kinds.take(i - 1));
            let pad = Seq::new((align_up(prev.len(), var_size(*var)) - prev.len()) as nat, |k: int| 0u8);
            assert(padded =~= before + pad);
            assert(b@.take(b@.len() as int) =~= b@);
            assert(out@ =~= start + packed_bytes(kinds.take(i as int)));
            lemma_packed_len(kinds.take(i as int));
        }
    }
    assert(kinds.take(i as int) =~= kinds);
}

} // verus!
