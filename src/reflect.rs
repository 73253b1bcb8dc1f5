//! Turning the reflected bindings of a fragment shader into uniform groups:
//! every binding must be a uniform buffer whose members all have a supported
//! shape.
use vstd::prelude::*;
use crate::variable::{Variable, ONE_BITS};
use crate::program::{Uniform, UniformGroup};

verus! {

/// Reflected type flag of an integer.
pub const TYPE_INT: u32 = 0x4;
/// Reflected type flag of a floating-point number.
pub const TYPE_FLOAT: u32 = 0x8;
/// Reflected type flag of a vector.
pub const TYPE_VECTOR: u32 = 0x100;

/// Kind of resource behind a reflected binding.
#[derive(Clone, Copy, Debug, PartialEq, Eq)]
pub enum DescriptorKind {
    Undefined,
    Sampler,
    CombinedImageSampler,
    SampledImage,
    StorageImage,
    UniformTexelBuffer,
    StorageTexelBuffer,
    UniformBuffer,
    StorageBuffer,
    UniformBufferDynamic,
    StorageBufferDynamic,
    InputAttachment,
    AccelerationStructure,
}

/// A reflected member of a uniform block.
pub struct MemberInfo {
    pub name: String,
    pub type_flags: u32,
    pub component_count: u32,
    pub width: u32,
    pub signedness: u32,
}

/// The reflected structure type of a binding.
pub struct BlockInfo {
    pub struct_name: String,
    pub members: Vec<MemberInfo>,
}

/// A reflected resource binding of the shader's entry point.
pub struct BindingInfo {
    pub name: String,
    pub set: u32,
    pub binding: u32,
    pub kind: DescriptorKind,
    pub block: Option<BlockInfo>,
}

/// Why a shader's bindings cannot be laid out.
#[derive(Debug)]
pub enum ReflectError {
    /// The binding at (`set`, `binding`) is not a uniform buffer.
    UnsupportedBinding { set: u32, binding: u32 },
    /// The binding named `name` has no type description.
    MissingType { name: String },
    /// Field `field` of the uniform block `uniform` has an unsupported type.
    UnsupportedField { field: String, uniform: String },
}

/// The value a member of this shape starts with; none for an unsupported shape.
pub open spec fn classify_spec(m: MemberInfo) -> Option<Variable> {
    if m.type_flags == (TYPE_VECTOR | TYPE_FLOAT) && m.width == 32 {
        if m.component_count == 2 {
            Some(Variable::Vec2([ONE_BITS, ONE_BITS]))
        } else if m.component_count == 3 {
            Some(Variable::Vec3([ONE_BITS, ONE_BITS, ONE_BITS]))
        } else if m.component_count == 4 {
            Some(Variable::Vec4([ONE_BITS, ONE_BITS, ONE_BITS, ONE_BITS]))
        } else {
            None
        }
    } else if m.type_flags == TYPE_FLOAT && m.width == 32 {
        Some(Variable::Float(ONE_BITS))
    } else if m.type_flags == TYPE_INT && m.width == 32 && m.signedness == 1 {
        Some(Variable::Int(1))
    } else {
        None
    }
}

/// Classifies a member: a 32-bit float vector of two to four components, a
/// 32-bit float, or a signed 32-bit integer, each starting at one.
pub fn classify(m: &MemberInfo) -> (r: Option<Variable>)
    ensures
        r == classify_spec(*m),
{
    if m.type_flags == (TYPE_VECTOR | TYPE_FLOAT) && m.width == 32 {
        if m.component_count == 2 {
            Some(Variable::Vec2([ONE_BITS, ONE_BITS]))
        } else if m.component_count == 3 {
            Some(Variable::Vec3([ONE_BITS, ONE_BITS, ONE_BITS]))
        } else if m.component_count == 4 {
            Some(Variable::Vec4([ONE_BITS, ONE_BITS, ONE_BITS, ONE_BITS]))
        } else {
            None
        }
    } else if m.type_flags == TYPE_FLOAT && m.width == 32 {
        Some(Variable::Float(ONE_BITS))
    } else if m.type_flags == TYPE_INT && m.width == 32 && m.signedness == 1 {
        Some(Variable::Int(1))
    } else {
        None
    }
}

pub open spec fn is_uniform_buffer(k: DescriptorKind) -> bool {
    k is UniformBuffer
}

/// A binding that can be laid out: a uniform buffer with a type description
/// whose members are all supported.
pub open spec fn binding_ok(b: BindingInfo) -> bool {
    &&& is_uniform_buffer(b.kind)
    &&& b.block is Some
    &&& forall|k: int| 0 <= k < b.block->0.members@.len() ==> (#[trigger] classify_spec(b.block->0.members@[k])) is Some
}

/// `e` is the error reported for the binding `b`: its set and binding where
/// it is no uniform buffer, its name where it has no type description, and
/// else its first unsupported member.
pub open spec fn error_for(b: BindingInfo, e: ReflectError) -> bool {
    if !is_uniform_buffer(b.kind) {
        e == ReflectError::UnsupportedBinding { set: b.set, binding: b.binding }
    } else {
        match b.block {
            None => match e {
                ReflectError::MissingType { name } => name@ == b.name@,
                _ => false,
            },
            Some(t) => match e {
                ReflectError::UnsupportedField { field, uniform } => {
                    &&& uniform@ == t.struct_name@
                    &&& exists|k: int| {
                        &&& 0 <= k < t.members@.len()
                        &&& (forall|j: int| 0 <= j < k ==> (#[trigger] classify_spec(t.members@[j])) is Some)
                        &&& classify_spec(t.members@[k]) is None
                        &&& field@ == t.members@[k].name@
                    }
                },
                _ => false,
            },
        }
    }
}

/// `u` is the uniform laid out from the binding `b`: its name is the block's
/// type name and its fields are the members in order, each at its start value.
pub open spec fn uniform_from(u: Uniform, b: BindingInfo) -> bool {
    &&& u.binding == b.binding
    &&& u.name@ == b.block->0.struct_name@
    &&& u.vars@.len() == b.block->0.members@.len()
    &&& forall|k: int| 0 <= k < u.vars@.len() ==> {
        &&& (#[trigger] u.vars@[k]).0@ == b.block->0.members@[k].name@
        &&& Some(u.vars@[k].1) == classify_spec(b.block->0.members@[k])
    }
}

/// Binding `i` is the last one of `bs` at its (set, binding).
pub open spec fn last_at(bs: Seq<BindingInfo>, i: int) -> bool {
    forall|j: int| i < j < bs.len() ==> !(#[trigger] bs[j].set == bs[i].set && bs[j].binding == bs[i].binding)
}

/// Group `g` of `groups` has set `set` and its uniform `u` has binding `binding`.
pub open spec fn holds_at(groups: Seq<UniformGroup>, g: int, u: int, set: u32, binding: u32) -> bool {
    &&& 0 <= g < groups.len()
    &&& 0 <= u < groups[g].uniforms@.len()
    &&& groups[g].set == set
    &&& groups[g].uniforms@[u].binding == binding
}

/// `u` is laid out from the last binding of `bs` at its binding and `set`.
pub open spec fn from_last(bs: Seq<BindingInfo>, set: u32, u: Uniform) -> bool {
    exists|i: int| 0 <= i < bs.len() && bs[i].set == set && last_at(bs, i) && uniform_from(u, bs[i])
}

/// Some uniform of `groups` sits at the set and binding of `b`.
pub open spec fn has_key(groups: Seq<UniformGroup>, b: BindingInfo) -> bool {
    exists|g: int, u: int| #[trigger] holds_at(groups, g, u, b.set, b.binding)
}

/// `groups` holds, once per (set, binding) of `bs`, the uniform laid out from
/// the last binding there, grouped by set; no group is empty.
pub open spec fn grouped(groups: Seq<UniformGroup>, bs: Seq<BindingInfo>) -> bool {
    &&& forall|g1: int, g2: int| 0 <= g1 < g2 < groups.len() ==> #[trigger] groups[g1].set != #[trigger] groups[g2].set
    &&& forall|g: int| 0 <= g < groups.len() ==> (#[trigger] groups[g]).uniforms@.len() > 0
    &&& forall|g: int, u1: int, u2: int| 0 <= g < groups.len() && 0 <= u1 < u2 < groups[g].uniforms@.len() ==>
        #[trigger] groups[g].uniforms@[u1].binding != #[trigger] groups[g].uniforms@[u2].binding
    &&& forall|g: int, u: int| 0 <= g < groups.len() && 0 <= u < groups[g].uniforms@.len() ==>
        #[trigger] from_last(bs, groups[g].set, groups[g].uniforms@[u])
    &&& forall|i: int| 0 <= i < bs.len() ==> #[trigger] has_key(groups, bs[i])
}

/// Lays out one binding as a uniform, or reports why it cannot be.
pub fn uniform_of(b: &BindingInfo) -> (r: Result<Uniform, ReflectError>)
    ensures
        match r {
            Ok(u) => binding_ok(*b) && uniform_from(u, *b),
            Err(e) => !binding_ok(*b) && error_for(*b, e),
        },
{
    if !matches!(b.kind, DescriptorKind::UniformBuffer) {
        return Err(ReflectError::UnsupportedBinding { set: b.set, binding: b.binding });
    }
    let t = match &b.block {
        Some(t) => t,
        None => {
            return Err(ReflectError::MissingType { name: b.name.clone() });
        },
    };
    let mut vars: Vec<(String, Variable)> = Vec::new();
    let mut k: usize = 0;
    while k < t.members.len()
        invariant
            is_uniform_buffer(b.kind),
            b.block == Some(*t),
            k <= t.members@.len(),
            vars@.len() == k,
            forall|j: int| 0 <= j < k ==> {
                &&& (#[trigger] vars@[j]).0@ == t.members@[j].name@
                &&& Some(vars@[j].1) == classify_spec(t.members@[j])
            },
        decreases t.members@.len() - k,
    {
        let m = &t.members[k];
        match classify(m) {
            Some(v) => {
                vars.push((m.name.clone(), v));
            },
            None => {
                let e = ReflectError::UnsupportedField { field: m.name.clone(), uniform: t.struct_name.clone() };
                assert(classify_spec(t.members@[k as int]) is None);
                assert forall|j: int| 0 <= j < k implies (#[trigger] classify_spec(t.members@[j])) is Some by {
                    assert(Some(vars@[j].1) == classify_spec(t.members@[j]));
                }
                assert(t.members@[k as int].name@ == m.name@);
                return Err(e);
            },
        }
        k = k + 1;
    }
    assert forall|j: int| 0 <= j < t.members@.len() implies (#[trigger] classify_spec(t.members@[j])) is Some by {
        assert(Some(vars@[j].1) == classify_spec(t.members@[j]));
    }
    Ok(Uniform { binding: b.binding, name: t.struct_name.clone(), vars })
}

fn find_set(groups: &Vec<UniformGroup>, set: u32) -> (r: Option<usize>)
    ensures
        match r {
            Some(g) => g < groups@.len() && groups@[g as int].set == set,
            None => forall|g: int| 0 <= g < groups@.len() ==> (#[trigger] groups@[g]).set != set,
        },
{
    let mut g: usize = 0;
    while g < groups.len()
        invariant
            g <= groups@.len(),
            forall|h: int| 0 <= h < g ==> (#[trigger] groups@[h]).set != set,
        decreases groups@.len() - g,
    {
        if groups[g].set == set {
            return Some(g);
        }
        g = g + 1;
    }
    None
}

fn find_binding(uniforms: &Vec<Uniform>, binding: u32) -> (r: Option<usize>)
    ensures
        match r {
            Some(u) => u < uniforms@.len() && uniforms@[u as int].binding == binding,
            None => forall|u: int| 0 <= u < uniforms@.len() ==> (#[trigger] uniforms@[u]).binding != binding,
        },
{
    let mut u: usize = 0;
    while u < uniforms.len()
        invariant
            u <= uniforms@.len(),
            forall|h: int| 0 <= h < u ==> (#[trigger] uniforms@[h]).binding != binding,
        decreases uniforms@.len() - u,
    {
        if uniforms[u].binding == binding {
            return Some(u);
        }
        u = u + 1;
    }
    None
}

/// Puts the uniform laid out from binding `i` of `bs`, whose set is `set`,
/// into its group.
fn place(groups: &mut Vec<UniformGroup>, set: u32, uniform: Uniform, Ghost(bs): Ghost<Seq<BindingInfo>>, Ghost(i): Ghost<int>)
    requires
        0 <= i < bs.len(),
        bs[i].set == set,
        grouped(old(groups)@, bs.take(i)),
        uniform_from(uniform, bs[i]),
    ensures
        grouped(final(groups)@, bs.take(i + 1)),
{
    let ghost pre = bs.take(i);
    let ghost post = bs.take(i + 1);
    let ghost b = bs[i];
    let ghost olds = groups@;
    assert forall|j: int| 0 <= j < i implies #[trigger] post[j] == pre[j] by {}
    assert(post[i] == b);
    match find_set(groups, set) {
        Some(gi) => {
            let mut group = UniformGroup { set: 0, uniforms: Vec::new() };
            groups.set_and_swap(gi, &mut group);
            let ghost og = group;
            let found = find_binding(&group.uniforms, uniform.binding);
            let ghost new_u = uniform;
            match found {
                Some(ui) => {
                    group.uniforms.set(ui, uniform);
                },
                None => {
                    group.uniforms.push(uniform);
                },
            }
            let ghost slot: int = match found { Some(ui) => ui as int, None => og.uniforms@.len() as int };
            groups.set(gi, group);
            proof {
                let news = groups@;
                assert(news == olds.update(gi as int, group));
                assert(og == olds[gi as int]);
                assert(group.uniforms@ == if found is Some { og.uniforms@.update(slot, new_u) } else { og.uniforms@.push(new_u) });
                assert forall|g: int, u: int| 0 <= g < news.len() && 0 <= u < news[g].uniforms@.len() && !(g == gi && u == slot)
                    implies g < olds.len() && u < olds[g].uniforms@.len() && #[trigger] news[g].uniforms@[u] == olds[g].uniforms@[u]
                    && news[g].set == olds[g].set by {}
                assert forall|g: int, u: int| 0 <= g < olds.len() && 0 <= u < olds[g].uniforms@.len() && !(g == gi && u == slot)
                    implies (olds[g].set != set || #[trigger] olds[g].uniforms@[u].binding != b.binding) by {
                    if g != gi {
                        assert(olds[g].set != olds[gi as int].set);
                    } else if found is Some {
                        assert(olds[g].uniforms@[u].binding != olds[g].uniforms@[slot].binding);
                    }
                }
                assert forall|g1: int, g2: int| 0 <= g1 < g2 < news.len() implies #[trigger] news[g1].set != #[trigger] news[g2].set by {
                    assert(olds[g1].set != olds[g2].set);
                }
                assert forall|g: int| 0 <= g < news.len() implies (#[trigger] news[g]).uniforms@.len() > 0 by {
                    assert(olds[g].uniforms@.len() > 0);
                }
                assert forall|g: int, u1: int, u2: int| 0 <= g < news.len() && 0 <= u1 < u2 < news[g].uniforms@.len() implies
                    #[trigger] news[g].uniforms@[u1].binding != #[trigger] news[g].uniforms@[u2].binding by {
                    if g == gi && u1 == slot {
                        assert(news[g].uniforms@[u2] == olds[g].uniforms@[u2]);
                    } else if g == gi && u2 == slot {
                        assert(news[g].uniforms@[u1] == olds[g].uniforms@[u1]);
                    } else {
                        assert(olds[g].uniforms@[u1].binding != olds[g].uniforms@[u2].binding);
                    }
                }
                assert forall|g: int, u: int| 0 <= g < news.len() && 0 <= u < news[g].uniforms@.len() implies
                    #[trigger] from_last(post, news[g].set, news[g].uniforms@[u]) by {
                    if g == gi && u == slot {
                        assert(uniform_from(news[g].uniforms@[u], post[i]));
                        assert(last_at(post, i));
                        assert(post[i].set == news[g].set);
                    } else {
                        assert(0 <= g < olds.len() && 0 <= u < olds[g].uniforms@.len());
                        let ou = olds[g].uniforms@[u];
                        assert(from_last(pre, olds[g].set, ou));
                        let j = choose|j: int| 0 <= j < pre.len() && pre[j].set == olds[g].set && last_at(pre, j)
                            && uniform_from(ou, pre[j]);
                        assert(post[j] == pre[j]);
                        assert(ou.binding == pre[j].binding);
                        assert(olds[g].set != set || ou.binding != b.binding);
                        assert(news[g].uniforms@[u] == ou);
                        assert(news[g].set == olds[g].set);
                        assert(post[j].set == news[g].set);
                        assert(uniform_from(news[g].uniforms@[u], post[j]));
                        assert(last_at(post, j));
                        assert(post[j] == pre[j]);
                        assert forall|k: int| j < k < post.len() implies !(#[trigger] post[k].set == post[j].set && post[k].binding == post[j].binding) by {
                            if k < i {
                                assert(post[k] == pre[k]);
                            }
                        }
                    }
                }
                assert forall|j: int| 0 <= j < post.len() implies has_key(news, #[trigger] post[j]) by {
                    if j == i {
                        assert(holds_at(news, gi as int, slot, post[j].set, post[j].binding));
                    } else {
                        assert(pre[j] == bs.take(i)[j]);
                        assert(has_key(olds, pre[j]));
                        let (g, u) = choose|g: int, u: int| holds_at(olds, g, u, pre[j].set, pre[j].binding);
                        if g == gi && u == slot {
                            assert(news[g].uniforms@[u].binding == post[j].binding);
                        } else {
                            assert(news[g].uniforms@[u] == olds[g].uniforms@[u]);
                        }
                        assert(holds_at(news, g, u, post[j].set, post[j].binding));
                    }
                }
            }
        },
        None => {
            let mut us: Vec<Uniform> = Vec::new();
            us.push(uniform);
            let ghost new_group = UniformGroup { set, uniforms: us };
            groups.push(UniformGroup { set, uniforms: us });
            proof {
                let news = groups@;
                let gn = olds.len() as int;
                assert(news == olds.push(new_group));
                assert(news[gn].uniforms@ == seq![uniform]);
                assert forall|g1: int, g2: int| 0 <= g1 < g2 < news.len() implies #[trigger] news[g1].set != #[trigger] news[g2].set by {
                    if g2 < gn {
                        assert(olds[g1].set != olds[g2].set);
                    }
                }
                assert forall|g: int| 0 <= g < news.len() implies (#[trigger] news[g]).uniforms@.len() > 0 by {
                    if g < gn {
                        assert(olds[g].uniforms@.len() > 0);
                    }
                }
                assert forall|g: int, u1: int, u2: int| 0 <= g < news.len() && 0 <= u1 < u2 < news[g].uniforms@.len() implies
                    #[trigger] news[g].uniforms@[u1].binding != #[trigger] news[g].uniforms@[u2].binding by {
                    assert(olds[g].uniforms@[u1].binding != olds[g].uniforms@[u2].binding);
                }
                assert forall|g: int, u: int| 0 <= g < news.len() && 0 <= u < news[g].uniforms@.len() implies
                    #[trigger] from_last(post, news[g].set, news[g].uniforms@[u]) by {
                    if g == gn {
                        assert(uniform_from(news[g].uniforms@[u], post[i]));
                        assert(last_at(post, i));
                        assert(post[i].set == news[g].set);
                    } else {
                        assert(news[g] == olds[g]);
                        assert(0 <= g < olds.len() && 0 <= u < olds[g].uniforms@.len());
                        let ou = olds[g].uniforms@[u];
                        assert(from_last(pre, olds[g].set, ou));
                        let j = choose|j: int| 0 <= j < pre.len() && pre[j].set == olds[g].set && last_at(pre, j)
                            && uniform_from(ou, pre[j]);
                        assert(post[j] == pre[j]);
                        assert(ou.binding == pre[j].binding);
                        assert(olds[g].set != set || ou.binding != b.binding);
                        assert(news[g].uniforms@[u] == ou);
                        assert(news[g].set == olds[g].set);
                        assert(post[j].set == news[g].set);
                        assert(uniform_from(news[g].uniforms@[u], post[j]));
                        assert(last_at(post, j));
                        assert(post[j] == pre[j]);
                        assert forall|k: int| j < k < post.len() implies !(#[trigger] post[k].set == post[j].set && post[k].binding == post[j].binding) by {
                            if k < i {
                                assert(post[k] == pre[k]);
                            }
                        }
                    }
                }
                assert forall|j: int| 0 <= j < post.len() implies has_key(news, #[trigger] post[j]) by {
                    if j == i {
                        assert(holds_at(news, gn, 0, post[j].set, post[j].binding));
                    } else {
                        assert(pre[j] == bs.take(i)[j]);
                        assert(has_key(olds, pre[j]));
                        let (g, u) = choose|g: int, u: int| holds_at(olds, g, u, pre[j].set, pre[j].binding);
                        assert(news[g] == olds[g]);
                        assert(holds_at(news, g, u, post[j].set, post[j].binding));
                    }
                }
            }
        },
    }
}

/// Lays out every binding of a shader as uniforms grouped by set. Fails on
/// the first binding that cannot be laid out, with the error for it.
pub fn uniform_groups(bindings: &Vec<BindingInfo>) -> (r: Result<Vec<UniformGroup>, ReflectError>)
    ensures
        match r {
            Ok(groups) => {
                &&& forall|i: int| 0 <= i < bindings@.len() ==> #[trigger] binding_ok(bindings@[i])
                &&& grouped(groups@, bindings@)
            },
            Err(e) => exists|i: int| {
                &&& 0 <= i < bindings@.len()
                &&& (forall|j: int| 0 <= j < i ==> #[trigger] binding_ok(bindings@[j]))
                &&& !binding_ok(bindings@[i])
                &&& error_for(bindings@[i], e)
            },
        },
{
    let mut groups: Vec<UniformGroup> = Vec::new();
    let mut i: usize = 0;
    assert(grouped(groups@, bindings@.take(0)));
    while i < bindings.len()
        invariant
            i <= bindings@.len(),
            forall|j: int| 0 <= j < i ==> #[trigger] binding_ok(bindings@[j]),
            grouped(groups@, bindings@.take(i as int)),
        decreases bindings@.len() - i,
    {
        match uniform_of(&bindings[i]) {
            Ok(u) => {
                place(&mut groups, bindings[i].set, u, Ghost(bindings@), Ghost(i as int));
            },
            Err(e) => {
                assert(0 <= i < bindings@.len() && !binding_ok(bindings@[i as int]) && error_for(bindings@[i as int], e));
                return Err(e);
            },
        }
        i = i + 1;
    }
    assert(bindings@.take(i as int) =~= bindings@);
    Ok(groups)
}

} // verus!
