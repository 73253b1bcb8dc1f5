//! Leaf values of a uniform block and the per-frame constants.
//!
//! Floating-point values are held as their IEEE-754 single-precision bit
//! patterns, which is exactly what reaches the GPU.
use vstd::prelude::*;

verus! {

/// The four bytes of a 32-bit word, least significant first.
pub open spec fn le_bytes(w: u32) -> Seq<u8> {
    seq![
        (w % 0x100) as u8,
        ((w / 0x100) % 0x100) as u8,
        ((w / 0x1_0000) % 0x100) as u8,
        (w / 0x100_0000) as u8,
    ]
}

/// Little-endian bytes of a word.
pub fn word_bytes(w: u32) -> (r: [u8; 4])
    ensures
        r@ == le_bytes(w),
{
    let r = [(w % 0x100) as u8, ((w / 0x100) % 0x100) as u8, ((w / 0x1_0000) % 0x100) as u8, (w / 0x100_0000) as u8];
    assert(r@ =~= le_bytes(w));
    r
}

} // verus!

verus! {

/// A leaf value of a uniform block. Float components are IEEE-754 single
/// precision bit patterns.
#[derive(Clone, Copy, Debug, PartialEq)]
pub enum Variable {
    Int(i32),
    Float(u32),
    Vec2([u32; 2]),
    Vec3([u32; 3]),
    Vec4([u32; 4]),
}

/// Byte size of a value of this kind, which is also its alignment.
pub open spec fn var_size(v: Variable) -> nat {
    match v {
        Variable::Int(_) => 4,
        Variable::Float(_) => 4,
        Variable::Vec2(_) => 8,
        Variable::Vec3(_) => 16,
        Variable::Vec4(_) => 16,
    }
}

/// Serialized form of a value: each component as a little-endian word; a
/// three-component vector is filled up to its size with a zero word.
pub open spec fn var_bytes(v: Variable) -> Seq<u8> {
    match v {
        Variable::Int(i) => le_bytes(i as u32),
        Variable::Float(f) => le_bytes(f),
        Variable::Vec2(a) => le_bytes(a[0]) + le_bytes(a[1]),
        Variable::Vec3(a) => le_bytes(a[0]) + le_bytes(a[1]) + le_bytes(a[2]) + le_bytes(0),
        Variable::Vec4(a) => le_bytes(a[0]) + le_bytes(a[1]) + le_bytes(a[2]) + le_bytes(a[3]),
    }
}

/// Two values have the same kind.
pub open spec fn same_kind(a: Variable, b: Variable) -> bool {
    match (a, b) {
        (Variable::Int(_), Variable::Int(_)) => true,
        (Variable::Float(_), Variable::Float(_)) => true,
        (Variable::Vec2(_), Variable::Vec2(_)) => true,
        (Variable::Vec3(_), Variable::Vec3(_)) => true,
        (Variable::Vec4(_), Variable::Vec4(_)) => true,
        _ => false,
    }
}

fn push_word(out: &mut Vec<u8>, w: u32)
    ensures
        final(out)@ == old(out)@ + le_bytes(w),
{
    let b = word_bytes(w);
    out.push(b[0]);
    out.push(b[1]);
    out.push(b[2]);
    out.push(b[3]);
    assert(final(out)@ =~= old(out)@ + le_bytes(w));
}

impl Variable {
    pub fn size(&self) -> (r: u32)
        ensures
            r == var_size(*self),
    {
        match self {
            Variable::Int(_) => 4,
            Variable::Float(_) => 4,
            Variable::Vec2(_) => 8,
            Variable::Vec3(_) => 16,
            Variable::Vec4(_) => 16,
        }
    }

    pub fn bytes(&self) -> (r: Vec<u8>)
        ensures
            r@ == var_bytes(*self),
            r@.len() == var_size(*self),
    {
        let mut out: Vec<u8> = Vec::new();
        match self {
            Variable::Int(i) => {
                push_word(&mut out, *i as u32);
            },
            Variable::Float(f) => {
                push_word(&mut out, *f);
            },
            Variable::Vec2(a) => {
                push_word(&mut out, a[0]);
                push_word(&mut out, a[1]);
            },
            Variable::Vec3(a) => {
                push_word(&mut out, a[0]);
                push_word(&mut out, a[1]);
                push_word(&mut out, a[2]);
                push_word(&mut out, 0);
            },
            Variable::Vec4(a) => {
                push_word(&mut out, a[0]);
                push_word(&mut out, a[1]);
                push_word(&mut out, a[2]);
                push_word(&mut out, a[3]);
            },
        }
        assert(out@ =~= var_bytes(*self));
        out
    }
}

/// Bit pattern of the single-precision number 1.0.
pub const ONE_BITS: u32 = 0x3f80_0000;

/// Values that change every frame and reach the shader outside the uniform
/// buffers. Float fields are single-precision bit patterns.
#[derive(Clone, Copy, Debug, PartialEq)]
pub struct Constants {
    pub t: u32,
    pub resolution: [u32; 2],
    pub aspect: u32,
    pub mpos: [u32; 2],
    pub mclick: [u32; 2],
}

/// The block as the shader reads it: `t` at 0, `resolution` at 8, `aspect`
/// at 16, `mpos` at 24 and `mclick` at 32, the gaps filled with zeros.
pub open spec fn constants_bytes(c: Constants) -> Seq<u8> {
    le_bytes(c.t) + le_bytes(0) + le_bytes(c.resolution[0]) + le_bytes(c.resolution[1])
        + le_bytes(c.aspect) + le_bytes(0) + le_bytes(c.mpos[0]) + le_bytes(c.mpos[1])
        + le_bytes(c.mclick[0]) + le_bytes(c.mclick[1])
}

impl Constants {
    /// Byte size of the block.
    pub const SIZE: u32 = 40;

    pub fn bytes(&self) -> (r: Vec<u8>)
        ensures
            r@ == constants_bytes(*self),
            r@.len() == Self::SIZE,
    {
        let mut out: Vec<u8> = Vec::new();
        push_word(&mut out, self.t);
        push_word(&mut out, 0);
        push_word(&mut out, self.resolution[0]);
        push_word(&mut out, self.resolution[1]);
        push_word(&mut out, self.aspect);
        push_word(&mut out, 0);
        push_word(&mut out, self.mpos[0]);
        push_word(&mut out, self.mpos[1]);
        push_word(&mut out, self.mclick[0]);
        push_word(&mut out, self.mclick[1]);
        assert(out@ =~= constants_bytes(*self));
        out
    }
}

/// Time zero, zero resolution and positions, aspect ratio one.
pub open spec fn default_constants() -> Constants {
    Constants { t: 0, resolution: [0, 0], aspect: ONE_BITS, mpos: [0, 0], mclick: [0, 0] }
}

impl Default for Constants {
    fn default() -> (r: Self)
        ensures
            r == default_constants(),
    {
        Constants { t: 0, resolution: [0, 0], aspect: ONE_BITS, mpos: [0, 0], mclick: [0, 0] }
    }
}

} // verus!
