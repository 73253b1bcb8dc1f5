//! Carrying edited values over from one build of a shader to the next.
use vstd::prelude::*;
use crate::variable::Variable;
use crate::numeric::{float_to_int, int_to_float, truncate_to_int, int_to_float_bits};

verus! {

/// The value a field of kind `new` takes from a field `old` of the same name:
/// integers and floats convert into each other, vectors keep their leading
/// components and fill missing ones with zero, and any other pair keeps `new`.
pub open spec fn migrated_value(new: Variable, old: Variable) -> Variable {
    match (new, old) {
        (Variable::Int(_), Variable::Int(o)) => Variable::Int(o),
        (Variable::Int(_), Variable::Float(o)) => Variable::Int(float_to_int(o)),
        (Variable::Float(_), Variable::Float(o)) => Variable::Float(o),
        (Variable::Float(_), Variable::Int(o)) => Variable::Float(int_to_float(o)),
        (Variable::Vec2(_), Variable::Vec2(o)) => Variable::Vec2(o),
        (Variable::Vec2(_), Variable::Vec3(o)) => Variable::Vec2([o[0], o[1]]),
        (Variable::Vec2(_), Variable::Vec4(o)) => Variable::Vec2([o[0], o[1]]),
        (Variable::Vec3(_), Variable::Vec2(o)) => Variable::Vec3([o[0], o[1], 0]),
        (Variable::Vec3(_), Variable::Vec3(o)) => Variable::Vec3(o),
        (Variable::Vec3(_), Variable::Vec4(o)) => Variable::Vec3([o[0], o[1], o[2]]),
        (Variable::Vec4(_), Variable::Vec2(o)) => Variable::Vec4([o[0], o[1], 0, 0]),
        (Variable::Vec4(_), Variable::Vec3(o)) => Variable::Vec4([o[0], o[1], o[2], 0]),
        (Variable::Vec4(_), Variable::Vec4(o)) => Variable::Vec4(o),
        _ => new,
    }
}

/// Converts `old` into the kind of `new` as far as the two kinds allow.
pub fn migrate_value(new: Variable, old: &Variable) -> (r: Variable)
    ensures
        r == migrated_value(new, *old),
{
    match (new, old) {
        (Variable::Int(_), Variable::Int(o)) => Variable::Int(*o),
        (Variable::Int(_), Variable::Float(o)) => Variable::Int(truncate_to_int(*o)),
        (Variable::Float(_), Variable::Float(o)) => Variable::Float(*o),
        (Variable::Float(_), Variable::Int(o)) => Variable::Float(int_to_float_bits(*o)),
        (Variable::Vec2(_), Variable::Vec2(o)) => Variable::Vec2(*o),
        (Variable::Vec2(_), Variable::Vec3(o)) => Variable::Vec2([o[0], o[1]]),
        (Variable::Vec2(_), Variable::Vec4(o)) => Variable::Vec2([o[0], o[1]]),
        (Variable::Vec3(_), Variable::Vec2(o)) => Variable::Vec3([o[0], o[1], 0]),
        (Variable::Vec3(_), Variable::Vec3(o)) => Variable::Vec3(*o),
        (Variable::Vec3(_), Variable::Vec4(o)) => Variable::Vec3([o[0], o[1], o[2]]),
        (Variable::Vec4(_), Variable::Vec2(o)) => Variable::Vec4([o[0], o[1], 0, 0]),
        (Variable::Vec4(_), Variable::Vec3(o)) => Variable::Vec4([o[0], o[1], o[2], 0]),
        (Variable::Vec4(_), Variable::Vec4(o)) => Variable::Vec4(*o),
        _ => new,
    }
}

} // verus!

verus! {

/// Value of a field named `name`, currently `v`, after taking over each field
/// of `old` with that name in turn.
pub open spec fn migrated_field(v: Variable, name: Seq<char>, old: Seq<(String, Variable)>) -> Variable
    decreases old.len(),
{
    if old.len() == 0 {
        v
    } else {
        let prev = migrated_field(v, name, old.drop_last());
        if old.last().0@ == name {
            migrated_value(prev, old.last().1)
        } else {
            prev
        }
    }
}

/// `new` is `cur` with every field's value taken over from `old`.
pub open spec fn fields_migrated(
    new: Seq<(String, Variable)>,
    cur: Seq<(String, Variable)>,
    old: Seq<(String, Variable)>,
) -> bool {
    &&& new.len() == cur.len()
    &&& forall|k: int| 0 <= k < cur.len() ==> #[trigger] new[k] == (cur[k].0, migrated_field(cur[k].1, cur[k].0@, old))
}

/// The value that a field named `name` takes from the fields of `old`.
pub fn migrate_field(v: Variable, name: &String, old: &Vec<(String, Variable)>) -> (r: Variable)
    ensures
        r == migrated_field(v, name@, old@),
{
    let mut r = v;
    let mut j: usize = 0;
    while j < old.len()
        invariant
            j <= old@.len(),
            r == migrated_field(v, name@, old@.take(j as int)),
        decreases old@.len() - j,
    {
        proof {
            assert(old@.take(j + 1).drop_last() =~= old@.take(j as int));
        }
        if old[j].0 == *name {
            r = migrate_value(r, &old[j].1);
        }
        j = j + 1;
    }
    assert(old@.take(j as int) =~= old@);
    r
}

/// Every field of `cur`, with its value taken over from the fields of `old`.
pub fn migrate_fields(cur: Vec<(String, Variable)>, old: &Vec<(String, Variable)>) -> (r: Vec<(String, Variable)>)
    ensures
        fields_migrated(r@, cur@, old@),
{
    let mut rest = cur;
    let mut out: Vec<(String, Variable)> = Vec::new();
    while rest.len() > 0
        invariant
            out@.len() + rest@.len() == cur@.len(),
            rest@ == cur@.skip(out@.len() as int),
            forall|k: int| 0 <= k < out@.len() ==> #[trigger] out@[k] == (cur@[k].0, migrated_field(cur@[k].1, cur@[k].0@, old@)),
        decreases rest@.len(),
    {
        let ghost before = rest@;
        assert(before[0] == cur@[out@.len() as int]);
        let (name, v) = rest.remove(0);
        let nv = migrate_field(v, &name, old);
        out.push((name, nv));
        assert(rest@ =~= cur@.skip(out@.len() as int));
    }
    out
}

} // verus!
