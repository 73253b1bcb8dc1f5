//! A built shader program's uniform schema and values, and the swap of a
//! newly built program into the active slot.
use vstd::prelude::*;
use crate::variable::{Variable, Constants, default_constants, same_kind};
use crate::layout::{packed_end, packed_bytes, field_values, packed_size, pack_into};
use crate::migrate::{fields_migrated, migrate_fields, migrated_field, migrated_value};

verus! {

/// One uniform block, bound at `binding` of its group.
pub struct Uniform {
    pub binding: u32,
    pub name: String,
    pub vars: Vec<(String, Variable)>,
}

/// The uniform blocks that share one bind-group index.
pub struct UniformGroup {
    pub set: u32,
    pub uniforms: Vec<Uniform>,
}

/// A built program: its per-frame constants, its GPU objects, and its uniform
/// groups in ascending order of bind-group index.
pub struct Program<P> {
    pub consts: Constants,
    pub gpu: P,
    pub uniform_groups: Vec<UniformGroup>,
}

impl Uniform {
    /// Byte size of the block's buffer.
    pub fn size(&self) -> (r: u64)
        requires
            self.vars@.len() < 0x1_0000_0000,
        ensures
            r == packed_end(field_values(self.vars@)),
    {
        packed_size(&self.vars)
    }

    /// Appends the block's buffer contents to `out`.
    pub fn write(&self, out: &mut Vec<u8>)
        requires
            self.vars@.len() < 0x1_0000_0000,
        ensures
            final(out)@ == old(out)@ + packed_bytes(field_values(self.vars@)),
    {
        pack_into(&self.vars, out)
    }
}

/// The first group with bind-group index `set`.
pub open spec fn group_at(groups: Seq<UniformGroup>, set: u32) -> Option<UniformGroup>
    decreases groups.len(),
{
    if groups.len() == 0 {
        None
    } else if groups[0].set == set {
        Some(groups[0])
    } else {
        group_at(groups.drop_first(), set)
    }
}

/// The first uniform bound at `binding`.
pub open spec fn uniform_at(uniforms: Seq<Uniform>, binding: u32) -> Option<Uniform>
    decreases uniforms.len(),
{
    if uniforms.len() == 0 {
        None
    } else if uniforms[0].binding == binding {
        Some(uniforms[0])
    } else {
        uniform_at(uniforms.drop_first(), binding)
    }
}

/// The fields of the uniform at (`set`, `binding`) of `groups`; none where
/// there is no such uniform.
pub open spec fn source_fields(groups: Seq<UniformGroup>, set: u32, binding: u32) -> Seq<(String, Variable)> {
    match group_at(groups, set) {
        Some(g) => match uniform_at(g.uniforms@, binding) {
            Some(u) => u.vars@,
            None => Seq::empty(),
        },
        None => Seq::empty(),
    }
}

/// `new` is `cur` with its values taken over from the matching uniform of `old`.
pub open spec fn uniform_migrated(new: Uniform, cur: Uniform, old: Seq<UniformGroup>, set: u32) -> bool {
    &&& new.binding == cur.binding
    &&& new.name == cur.name
    &&& fields_migrated(new.vars@, cur.vars@, source_fields(old, set, cur.binding))
}

pub open spec fn group_migrated(new: UniformGroup, cur: UniformGroup, old: Seq<UniformGroup>) -> bool {
    &&& new.set == cur.set
    &&& new.uniforms@.len() == cur.uniforms@.len()
    &&& forall|u: int| 0 <= u < cur.uniforms@.len() ==>
        #[trigger] uniform_migrated(new.uniforms@[u], cur.uniforms@[u], old, cur.set)
}

/// `new` is `cur`, same groups, uniforms and fields in the same order, with
/// every value taken over from `old`.
pub open spec fn groups_migrated(new: Seq<UniformGroup>, cur: Seq<UniformGroup>, old: Seq<UniformGroup>) -> bool {
    &&& new.len() == cur.len()
    &&& forall|g: int| 0 <= g < cur.len() ==> #[trigger] group_migrated(new[g], cur[g], old)
}

fn find_group(groups: &Vec<UniformGroup>, set: u32) -> (r: Option<usize>)
    ensures
        match r {
            Some(i) => i < groups@.len() && group_at(groups@, set) == Some(groups@[i as int]),
            None => group_at(groups@, set) == None::<UniformGroup>,
        },
{
    let mut i: usize = 0;
    assert(groups@.skip(0) =~= groups@);
    while i < groups.len()
        invariant
            i <= groups@.len(),
            group_at(groups@, set) == group_at(groups@.skip(i as int), set),
        decreases groups@.len() - i,
    {
        assert(groups@.skip(i as int).drop_first() =~= groups@.skip(i + 1));
        if groups[i].set == set {
            return Some(i);
        }
        i = i + 1;
    }
    None
}

fn find_uniform(uniforms: &Vec<Uniform>, binding: u32) -> (r: Option<usize>)
    ensures
        match r {
            Some(i) => i < uniforms@.len() && uniform_at(uniforms@, binding) == Some(uniforms@[i as int]),
            None => uniform_at(uniforms@, binding) == None::<Uniform>,
        },
{
    let mut i: usize = 0;
    assert(uniforms@.skip(0) =~= uniforms@);
    while i < uniforms.len()
        invariant
            i <= uniforms@.len(),
            uniform_at(uniforms@, binding) == uniform_at(uniforms@.skip(i as int), binding),
        decreases uniforms@.len() - i,
    {
        assert(uniforms@.skip(i as int).drop_first() =~= uniforms@.skip(i + 1));
        if uniforms[i].binding == binding {
            return Some(i);
        }
        i = i + 1;
    }
    None
}

fn migrate_uniform(cur: Uniform, old: &Vec<UniformGroup>, set: u32) -> (r: Uniform)
    ensures
        uniform_migrated(r, cur, old@, set),
{
    let Uniform { binding, name, vars } = cur;
    let vars = match find_group(old, set) {
        Some(gi) => match find_uniform(&old[gi].uniforms, binding) {
            Some(ui) => migrate_fields(vars, &old[gi].uniforms[ui].vars),
            None => vars,
        },
        None => vars,
    };
    Uniform { binding, name, vars }
}

fn migrate_group(cur: UniformGroup, old: &Vec<UniformGroup>) -> (r: UniformGroup)
    ensures
        group_migrated(r, cur, old@),
{
    let UniformGroup { set, uniforms } = cur;
    let mut rest = uniforms;
    let mut out: Vec<Uniform> = Vec::new();
    while rest.len() > 0
        invariant
            out@.len() + rest@.len() == uniforms@.len(),
            rest@ == uniforms@.skip(out@.len() as int),
            forall|u: int| 0 <= u < out@.len() ==> #[trigger] uniform_migrated(out@[u], uniforms@[u], old@, set),
        decreases rest@.len(),
    {
        let ghost before = rest@;
        assert(before[0] == uniforms@[out@.len() as int]);
        let u = rest.remove(0);
        let nu = migrate_uniform(u, old, set);
        out.push(nu);
        assert(rest@ =~= uniforms@.skip(out@.len() as int));
    }
    UniformGroup { set, uniforms: out }
}

fn migrate_groups(cur: Vec<UniformGroup>, old: &Vec<UniformGroup>) -> (r: Vec<UniformGroup>)
    ensures
        groups_migrated(r@, cur@, old@),
{
    let mut rest = cur;
    let mut out: Vec<UniformGroup> = Vec::new();
    while rest.len() > 0
        invariant
            out@.len() + rest@.len() == cur@.len(),
            rest@ == cur@.skip(out@.len() as int),
            forall|g: int| 0 <= g < out@.len() ==> #[trigger] group_migrated(out@[g], cur@[g], old@),
        decreases rest@.len(),
    {
        let ghost before = rest@;
        assert(before[0] == cur@[out@.len() as int]);
        let g = rest.remove(0);
        let ng = migrate_group(g, old);
        out.push(ng);
        assert(rest@ =~= cur@.skip(out@.len() as int));
    }
    out
}

impl<P> Program<P> {
    /// A program with default constants.
    pub fn new(gpu: P, uniform_groups: Vec<UniformGroup>) -> (r: Self)
        ensures
            r.consts == default_constants(),
            r.gpu == gpu,
            r.uniform_groups == uniform_groups,
    {
        Program { consts: Constants::default(), gpu, uniform_groups }
    }

    /// Takes over the values of every field that `other` has at the same
    /// bind-group index, binding and name, converting between kinds.
    pub fn initialize<Q>(&mut self, other: &Program<Q>)
        ensures
            final(self).consts == old(self).consts,
            final(self).gpu == old(self).gpu,
            groups_migrated(final(self).uniform_groups@, old(self).uniform_groups@, other.uniform_groups@),
    {
        let mut groups: Vec<UniformGroup> = Vec::new();
        core::mem::swap(&mut groups, &mut self.uniform_groups);
        self.uniform_groups = migrate_groups(groups, &other.uniform_groups);
    }
}

/// Puts `incoming` into the active slot, with the values of the program it
/// replaces carried over. The slot holds a whole program before and after:
/// the new program's GPU objects always come with its own uniform groups.
pub fn install<P>(active: &mut Option<Program<P>>, incoming: Program<P>)
    ensures
        match *old(active) {
            None => *final(active) == Some(incoming),
            Some(prev) => match *final(active) {
                Some(now) => {
                    &&& now.gpu == incoming.gpu
                    &&& now.consts == incoming.consts
                    &&& groups_migrated(now.uniform_groups@, incoming.uniform_groups@, prev.uniform_groups@)
                },
                None => false,
            },
        },
{
    let mut incoming = incoming;
    match active.take() {
        Some(prev) => {
            incoming.initialize(&prev);
        },
        None => {},
    }
    *active = Some(incoming);
}

/// Distinct sets across groups, distinct bindings within a group, and
/// distinct field names within a uniform.
pub open spec fn wf_groups(groups: Seq<UniformGroup>) -> bool {
    &&& forall|g1: int, g2: int| 0 <= g1 < g2 < groups.len() ==> #[trigger] groups[g1].set != #[trigger] groups[g2].set
    &&& forall|g: int, u1: int, u2: int| 0 <= g < groups.len() && 0 <= u1 < u2 < groups[g].uniforms@.len() ==>
        #[trigger] groups[g].uniforms@[u1].binding != #[trigger] groups[g].uniforms@[u2].binding
    &&& forall|g: int, u: int, k1: int, k2: int|
        0 <= g < groups.len() && 0 <= u < groups[g].uniforms@.len() && 0 <= k1 < k2 < groups[g].uniforms@[u].vars@.len() ==>
        #[trigger] groups[g].uniforms@[u].vars@[k1].0@ != #[trigger] groups[g].uniforms@[u].vars@[k2].0@
}

/// `a` and `b` have the same groups, uniforms, field names and field kinds,
/// position for position.
pub open spec fn same_schema(a: Seq<UniformGroup>, b: Seq<UniformGroup>) -> bool {
    &&& a.len() == b.len()
    &&& forall|g: int| 0 <= g < a.len() ==> {
        &&& (#[trigger] a[g]).set == b[g].set
        &&& a[g].uniforms@.len() == b[g].uniforms@.len()
    }
    &&& forall|g: int, u: int| 0 <= g < a.len() && 0 <= u < a[g].uniforms@.len() ==> {
        &&& (#[trigger] a[g].uniforms@[u]).binding == b[g].uniforms@[u].binding
        &&& a[g].uniforms@[u].vars@.len() == b[g].uniforms@[u].vars@.len()
    }
    &&& forall|g: int, u: int, k: int|
        0 <= g < a.len() && 0 <= u < a[g].uniforms@.len() && 0 <= k < a[g].uniforms@[u].vars@.len() ==> {
        &&& (#[trigger] a[g].uniforms@[u].vars@[k]).0@ == b[g].uniforms@[u].vars@[k].0@
        &&& same_kind(a[g].uniforms@[u].vars@[k].1, b[g].uniforms@[u].vars@[k].1)
    }
}

proof fn lemma_group_at(groups: Seq<UniformGroup>, g: int)
    requires
        0 <= g < groups.len(),
        forall|g1: int, g2: int| 0 <= g1 < g2 < groups.len() ==> #[trigger] groups[g1].set != #[trigger] groups[g2].set,
    ensures
        group_at(groups, groups[g].set) == Some(groups[g]),
    decreases groups.len(),
{
    if g > 0 {
        assert(groups[0].set != groups[g].set);
        let rest = groups.drop_first();
        assert(rest[g - 1] == groups[g]);
        assert forall|g1: int, g2: int| 0 <= g1 < g2 < rest.len() implies #[trigger] rest[g1].set != #[trigger] rest[g2].set by {
            assert(groups[g1 + 1].set != groups[g2 + 1].set);
        }
        lemma_group_at(rest, g - 1);
    }
}

proof fn lemma_uniform_at(uniforms: Seq<Uniform>, u: int)
    requires
        0 <= u < uniforms.len(),
        forall|u1: int, u2: int| 0 <= u1 < u2 < uniforms.len() ==> #[trigger] uniforms[u1].binding != #[trigger] uniforms[u2].binding,
    ensures
        uniform_at(uniforms, uniforms[u].binding) == Some(uniforms[u]),
    decreases uniforms.len(),
{
    if u > 0 {
        assert(uniforms[0].binding != uniforms[u].binding);
        let rest = uniforms.drop_first();
        assert(rest[u - 1] == uniforms[u]);
        assert forall|u1: int, u2: int| 0 <= u1 < u2 < rest.len() implies #[trigger] rest[u1].binding != #[trigger] rest[u2].binding by {
            assert(uniforms[u1 + 1].binding != uniforms[u2 + 1].binding);
        }
        lemma_uniform_at(rest, u - 1);
    }
}

proof fn lemma_no_match(v: Variable, name: Seq<char>, old: Seq<(String, Variable)>)
    requires
        forall|j: int| 0 <= j < old.len() ==> (#[trigger] old[j]).0@ != name,
    ensures
        migrated_field(v, name, old) == v,
    decreases old.len(),
{
    if old.len() > 0 {
        assert(old.last() == old[old.len() - 1]);
        lemma_no_match(v, name, old.drop_last());
    }
}

proof fn lemma_single_match(v: Variable, name: Seq<char>, old: Seq<(String, Variable)>, k: int)
    requires
        0 <= k < old.len(),
        old[k].0@ == name,
        forall|j: int| 0 <= j < old.len() && j != k ==> (#[trigger] old[j]).0@ != name,
    ensures
        migrated_field(v, name, old) == migrated_value(v, old[k].1),
    decreases old.len(),
{
    if old.len() == k + 1 {
        let prefix = old.drop_last();
        assert forall|j: int| 0 <= j < prefix.len() implies (#[trigger] prefix[j]).0@ != name by {
            assert(prefix[j] == old[j]);
        }
        lemma_no_match(v, name, prefix);
    } else {
        assert(old.last() == old[old.len() - 1]);
        let prefix = old.drop_last();
        assert forall|j: int| 0 <= j < prefix.len() && j != k implies (#[trigger] prefix[j]).0@ != name by {
            assert(prefix[j] == old[j]);
        }
        lemma_single_match(v, name, prefix, k);
    }
}

/// Migrating a program whose schema is the same as that of `old`, field for
/// field, gives every field exactly the value it has in `old`.
pub proof fn lemma_migrate_same_schema(new: Seq<UniformGroup>, cur: Seq<UniformGroup>, old: Seq<UniformGroup>)
    requires
        wf_groups(old),
        same_schema(cur, old),
        groups_migrated(new, cur, old),
    ensures
        same_schema(new, old),
        forall|g: int, u: int, k: int|
            0 <= g < new.len() && 0 <= u < new[g].uniforms@.len() && 0 <= k < new[g].uniforms@[u].vars@.len() ==>
            #[trigger] new[g].uniforms@[u].vars@[k] == (cur[g].uniforms@[u].vars@[k].0, old[g].uniforms@[u].vars@[k].1),
{
    assert forall|g: int, u: int, k: int|
        0 <= g < new.len() && 0 <= u < new[g].uniforms@.len() && 0 <= k < new[g].uniforms@[u].vars@.len() implies
        #[trigger] new[g].uniforms@[u].vars@[k] == (cur[g].uniforms@[u].vars@[k].0, old[g].uniforms@[u].vars@[k].1) by {
        assert(group_migrated(new[g], cur[g], old));
        assert(uniform_migrated(new[g].uniforms@[u], cur[g].uniforms@[u], old, cur[g].set));
        let og = old[g];
        let ou = og.uniforms@[u];
        let cv = cur[g].uniforms@[u].vars@[k];
        assert(cur[g].uniforms@[u].binding == ou.binding);
        assert(cur[g].set == og.set);
        lemma_group_at(old, g);
        assert forall|u1: int, u2: int| 0 <= u1 < u2 < og.uniforms@.len() implies #[trigger] og.uniforms@[u1].binding != #[trigger] og.uniforms@[u2].binding by {
            assert(old[g].uniforms@[u1].binding != old[g].uniforms@[u2].binding);
        }
        lemma_uniform_at(og.uniforms@, u);
        assert(source_fields(old, cur[g].set, cur[g].uniforms@[u].binding) == ou.vars@);
        assert(cv.0@ == ou.vars@[k].0@);
        assert forall|j: int| 0 <= j < ou.vars@.len() && j != k implies (#[trigger] ou.vars@[j]).0@ != cv.0@ by {
            if j < k {
                assert(old[g].uniforms@[u].vars@[j].0@ != old[g].uniforms@[u].vars@[k].0@);
            } else {
                assert(old[g].uniforms@[u].vars@[k].0@ != old[g].uniforms@[u].vars@[j].0@);
            }
        }
        lemma_single_match(cv.1, cv.0@, ou.vars@, k);
        assert(same_kind(cv.1, ou.vars@[k].1));
        assert(new[g].uniforms@[u].vars@[k] == (cv.0, migrated_field(cv.1, cv.0@, ou.vars@)));
    }
    assert forall|g: int| 0 <= g < new.len() implies {
        &&& (#[trigger] new[g]).set == old[g].set
        &&& new[g].uniforms@.len() == old[g].uniforms@.len()
    } by {
        assert(group_migrated(new[g], cur[g], old));
        assert(cur[g].set == old[g].set);
    }
    assert forall|g: int, u: int| 0 <= g < new.len() && 0 <= u < new[g].uniforms@.len() implies {
        &&& (#[trigger] new[g].uniforms@[u]).binding == old[g].uniforms@[u].binding
        &&& new[g].uniforms@[u].vars@.len() == old[g].uniforms@[u].vars@.len()
    } by {
        assert(group_migrated(new[g], cur[g], old));
        assert(uniform_migrated(new[g].uniforms@[u], cur[g].uniforms@[u], old, cur[g].set));
        assert(cur[g].uniforms@[u].binding == old[g].uniforms@[u].binding);
    }
    assert forall|g: int, u: int, k: int|
        0 <= g < new.len() && 0 <= u < new[g].uniforms@.len() && 0 <= k < new[g].uniforms@[u].vars@.len() implies {
        &&& (#[trigger] new[g].uniforms@[u].vars@[k]).0@ == old[g].uniforms@[u].vars@[k].0@
        &&& same_kind(new[g].uniforms@[u].vars@[k].1, old[g].uniforms@[u].vars@[k].1)
    } by {
        assert(cur[g].uniforms@[u].vars@[k].0@ == old[g].uniforms@[u].vars@[k].0@);
        assert(same_kind(old[g].uniforms@[u].vars@[k].1, old[g].uniforms@[u].vars@[k].1));
    }
}

} // verus!
