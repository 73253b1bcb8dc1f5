//! Which filesystem events mean that the watched shader was rewritten.
use vstd::prelude::*;

verus! {

/// Relies on notify's `op::CLOSE_WRITE` and `Op::bits`: the flag reported when
/// a file that was open for writing is closed, `0b010_0000` in notify's source.
#[verifier::external_body]
fn close_write_bits() -> (r: u32)
    ensures
        r == 0b010_0000,
{
    notify::op::CLOSE_WRITE.bits()
}

/// Two paths, given as their components, are the same path.
pub open spec fn same_path(a: Seq<String>, b: Seq<String>) -> bool {
    &&& a.len() == b.len()
    &&& forall|i: int| 0 <= i < a.len() ==> (#[trigger] a[i])@ == b[i]@
}

fn paths_equal(a: &Vec<String>, b: &Vec<String>) -> (r: bool)
    ensures
        r == same_path(a@, b@),
{
    if a.len() != b.len() {
        return false;
    }
    let mut i: usize = 0;
    while i < a.len()
        invariant
            a@.len() == b@.len(),
            i <= a@.len(),
            forall|j: int| 0 <= j < i ==> (#[trigger] a@[j])@ == b@[j]@,
        decreases a@.len() - i,
    {
        if a[i] != b[i] {
            return false;
        }
        i = i + 1;
    }
    true
}

/// An event calls for a reload exactly when it is about the target file and
/// its operation is nothing but the close of a file opened for writing; an
/// event that gives no path or no operation never does.
pub fn is_reload_event(path: Option<&Vec<String>>, op: Option<u32>, target: &Vec<String>) -> (r: bool)
    ensures
        r == (path is Some && same_path(path->0@, target@) && op == Some(0b010_0000u32)),
{
    match (path, op) {
        (Some(p), Some(bits)) => bits == close_write_bits() && paths_equal(p, target),
        _ => false,
    }
}

} // verus!
