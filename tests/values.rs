use shaderview::layout::{align_to, pack_into, packed_size};
use shaderview::migrate::migrate_value;
use shaderview::numeric::{int_to_float_bits, truncate_to_int};
use shaderview::variable::{word_bytes, Constants, Variable, ONE_BITS};

fn f(x: f32) -> u32 {
    x.to_bits()
}

fn fields(vars: Vec<Variable>) -> Vec<(String, Variable)> {
    vars.into_iter().enumerate().map(|(i, v)| (format!("f{}", i), v)).collect()
}

#[test]
fn sizes_match_table() {
    assert_eq!(Variable::Int(7).size(), 4);
    assert_eq!(Variable::Float(f(2.0)).size(), 4);
    assert_eq!(Variable::Vec2([0; 2]).size(), 8);
    assert_eq!(Variable::Vec3([0; 3]).size(), 16);
    assert_eq!(Variable::Vec4([0; 4]).size(), 16);
}

#[test]
fn bytes_length_equals_size() {
    let all = vec![
        Variable::Int(-3),
        Variable::Float(f(0.25)),
        Variable::Vec2([f(1.0), f(2.0)]),
        Variable::Vec3([f(1.0), f(2.0), f(3.0)]),
        Variable::Vec4([f(1.0), f(2.0), f(3.0), f(4.0)]),
    ];
    for v in &all {
        assert_eq!(v.bytes().len() as u32, v.size());
    }
}

#[test]
fn bytes_are_little_endian_words() {
    assert_eq!(Variable::Int(-2).bytes(), (-2i32).to_le_bytes().to_vec());
    assert_eq!(Variable::Float(f(1.5)).bytes(), 1.5f32.to_le_bytes().to_vec());
    let v3 = Variable::Vec3([f(1.0), f(-2.0), f(0.5)]).bytes();
    let mut want = Vec::new();
    want.extend_from_slice(&1.0f32.to_le_bytes());
    want.extend_from_slice(&(-2.0f32).to_le_bytes());
    want.extend_from_slice(&0.5f32.to_le_bytes());
    want.extend_from_slice(&[0, 0, 0, 0]);
    assert_eq!(v3, want);
    assert_eq!(word_bytes(0x0403_0201), [1, 2, 3, 4]);
}

#[test]
fn align_to_rounds_up() {
    assert_eq!(align_to(0, 16), 0);
    assert_eq!(align_to(4, 16), 16);
    assert_eq!(align_to(12, 4), 12);
    assert_eq!(align_to(9, 8), 16);
}

#[test]
fn packed_size_pads_each_field_to_its_own_size() {
    let vars = fields(vec![
        Variable::Float(0),
        Variable::Vec2([0; 2]),
        Variable::Vec3([0; 3]),
        Variable::Float(0),
    ]);
    // float at 0, vec2 at 8, vec3 at 16, float at 32
    assert_eq!(packed_size(&vars), 36);
    assert_eq!(packed_size(&fields(vec![])), 0);
    assert_eq!(packed_size(&fields(vec![Variable::Float(0), Variable::Vec4([0; 4])])), 32);
}

#[test]
fn packed_size_is_multiple_of_last_field_size() {
    let lists = vec![
        vec![Variable::Int(0), Variable::Vec3([0; 3])],
        vec![Variable::Vec3([0; 3]), Variable::Vec2([0; 2])],
        vec![Variable::Float(0), Variable::Float(0), Variable::Float(0), Variable::Vec2([0; 2])],
    ];
    for l in lists {
        let last = l[l.len() - 1].size() as u64;
        assert_eq!(packed_size(&fields(l)) % last, 0);
    }
}

#[test]
fn packing_places_fields_at_offsets() {
    let vars = fields(vec![Variable::Int(5), Variable::Vec2([f(1.0), f(2.0)])]);
    let mut out = vec![9u8];
    pack_into(&vars, &mut out);
    let mut want = vec![9u8];
    want.extend_from_slice(&5i32.to_le_bytes());
    want.extend_from_slice(&[0, 0, 0, 0]);
    want.extend_from_slice(&1.0f32.to_le_bytes());
    want.extend_from_slice(&2.0f32.to_le_bytes());
    assert_eq!(out, want);
    assert_eq!(out.len() as u64 - 1, packed_size(&vars));
}

#[test]
fn truncation_matches_casts() {
    for x in [3.7f32, -3.7, 0.5, -0.5, 0.0, -0.0, 1e10, -1e10, 2147483520.0, -2147483648.0, 8388609.0, 123456.78, 1e-40, f32::MAX] {
        assert_eq!(truncate_to_int(f(x)), x as i32, "{}", x);
    }
    assert_eq!(truncate_to_int(f(f32::NAN)), 0);
    assert_eq!(truncate_to_int(f(f32::INFINITY)), i32::MAX);
    assert_eq!(truncate_to_int(f(f32::NEG_INFINITY)), i32::MIN);
}

#[test]
fn int_conversion_matches_casts() {
    for i in [0i32, 1, -1, 5, -5, 16777216, 16777217, 16777219, 33554435, 123456789, -987654321, i32::MAX, i32::MIN, 0x7fff_ffc0] {
        assert_eq!(int_to_float_bits(i), (i as f32).to_bits(), "{}", i);
    }
    assert_eq!(int_to_float_bits(1), ONE_BITS);
}

#[test]
fn migration_table_scalars() {
    assert_eq!(migrate_value(Variable::Int(1), &Variable::Int(42)), Variable::Int(42));
    assert_eq!(migrate_value(Variable::Int(1), &Variable::Float(f(-2.9))), Variable::Int(-2));
    assert_eq!(migrate_value(Variable::Float(0), &Variable::Int(3)), Variable::Float(f(3.0)));
    assert_eq!(migrate_value(Variable::Float(0), &Variable::Float(f(0.75))), Variable::Float(f(0.75)));
}

#[test]
fn migration_table_vectors() {
    let v2 = Variable::Vec2([1, 2]);
    let v3 = Variable::Vec3([1, 2, 3]);
    let v4 = Variable::Vec4([1, 2, 3, 4]);
    let d2 = Variable::Vec2([7; 2]);
    let d3 = Variable::Vec3([7; 3]);
    let d4 = Variable::Vec4([7; 4]);
    assert_eq!(migrate_value(d2, &v2), Variable::Vec2([1, 2]));
    assert_eq!(migrate_value(d2, &v3), Variable::Vec2([1, 2]));
    assert_eq!(migrate_value(d2, &v4), Variable::Vec2([1, 2]));
    assert_eq!(migrate_value(d3, &v2), Variable::Vec3([1, 2, 0]));
    assert_eq!(migrate_value(d3, &v3), Variable::Vec3([1, 2, 3]));
    assert_eq!(migrate_value(d3, &v4), Variable::Vec3([1, 2, 3]));
    assert_eq!(migrate_value(d4, &v2), Variable::Vec4([1, 2, 0, 0]));
    assert_eq!(migrate_value(d4, &v3), Variable::Vec4([1, 2, 3, 0]));
    assert_eq!(migrate_value(d4, &v4), Variable::Vec4([1, 2, 3, 4]));
}

#[test]
fn migration_table_unmatched_pairs_keep_default() {
    let scalars = [Variable::Int(9), Variable::Float(f(9.0))];
    let vectors = [Variable::Vec2([9; 2]), Variable::Vec3([9; 3]), Variable::Vec4([9; 4])];
    for s in scalars {
        for v in vectors {
            assert_eq!(migrate_value(s, &v), s);
            assert_eq!(migrate_value(v, &s), v);
        }
    }
}

#[test]
fn constants_default_and_bytes() {
    let c = Constants::default();
    assert_eq!(c.t, 0);
    assert_eq!(c.aspect, f(1.0));
    assert_eq!(c.resolution, [0, 0]);
    let c = Constants {
        t: f(1.0),
        resolution: [f(640.0), f(480.0)],
        aspect: f(4.0 / 3.0),
        mpos: [f(0.1), f(0.2)],
        mclick: [f(0.3), f(0.4)],
    };
    let b = c.bytes();
    assert_eq!(b.len() as u32, Constants::SIZE);
    assert_eq!(&b[0..4], &1.0f32.to_le_bytes());
    assert_eq!(&b[4..8], &[0, 0, 0, 0]);
    assert_eq!(&b[8..12], &640.0f32.to_le_bytes());
    assert_eq!(&b[12..16], &480.0f32.to_le_bytes());
    assert_eq!(&b[16..20], &(4.0f32 / 3.0).to_le_bytes());
    assert_eq!(&b[20..24], &[0, 0, 0, 0]);
    assert_eq!(&b[24..28], &0.1f32.to_le_bytes());
    assert_eq!(&b[36..40], &0.4f32.to_le_bytes());
}
