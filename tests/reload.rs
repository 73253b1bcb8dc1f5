use shaderview::pipeline::{next_action, CompileAction, CompileOutcome};
use shaderview::program::{install, Program, Uniform, UniformGroup};
use shaderview::reflect::{
    classify, uniform_groups, uniform_of, BindingInfo, BlockInfo, DescriptorKind, MemberInfo, ReflectError, TYPE_FLOAT,
    TYPE_INT, TYPE_VECTOR,
};
use shaderview::variable::{Variable, ONE_BITS};
use shaderview::watcher::is_reload_event;

fn vec_member(name: &str, n: u32) -> MemberInfo {
    MemberInfo { name: name.to_string(), type_flags: TYPE_VECTOR | TYPE_FLOAT, component_count: n, width: 32, signedness: 0 }
}

fn float_member(name: &str) -> MemberInfo {
    MemberInfo { name: name.to_string(), type_flags: TYPE_FLOAT, component_count: 1, width: 32, signedness: 0 }
}

fn int_member(name: &str) -> MemberInfo {
    MemberInfo { name: name.to_string(), type_flags: TYPE_INT, component_count: 1, width: 32, signedness: 1 }
}

fn block(set: u32, binding: u32, struct_name: &str, members: Vec<MemberInfo>) -> BindingInfo {
    BindingInfo {
        name: struct_name.to_lowercase(),
        set,
        binding,
        kind: DescriptorKind::UniformBuffer,
        block: Some(BlockInfo { struct_name: struct_name.to_string(), members }),
    }
}

fn program(bindings: Vec<BindingInfo>) -> Program<()> {
    Program::new((), uniform_groups(&bindings).unwrap())
}

fn set_value(p: &mut Program<()>, field: &str, v: Variable) {
    for g in &mut p.uniform_groups {
        for u in &mut g.uniforms {
            for (name, var) in &mut u.vars {
                if name == field {
                    *var = v;
                }
            }
        }
    }
}

fn value(p: &Program<()>, field: &str) -> Variable {
    for g in &p.uniform_groups {
        for u in &g.uniforms {
            for (name, var) in &u.vars {
                if name == field {
                    return *var;
                }
            }
        }
    }
    panic!("no field {}", field)
}

#[test]
fn classify_supported_and_rejected_shapes() {
    assert_eq!(classify(&vec_member("a", 3)), Some(Variable::Vec3([ONE_BITS; 3])));
    assert_eq!(classify(&float_member("b")), Some(Variable::Float(ONE_BITS)));
    assert_eq!(classify(&int_member("c")), Some(Variable::Int(1)));
    let mut mat = vec_member("m", 4);
    mat.type_flags |= 0x200;
    assert_eq!(classify(&mat), None);
    let mut uint = int_member("u");
    uint.signedness = 0;
    assert_eq!(classify(&uint), None);
    let mut double = float_member("d");
    double.width = 64;
    assert_eq!(classify(&double), None);
    assert_eq!(classify(&vec_member("v5", 5)), None);
}

#[test]
fn bindings_are_grouped_by_set() {
    let groups = uniform_groups(&vec![
        block(1, 0, "A", vec![float_member("x")]),
        block(0, 2, "B", vec![int_member("y")]),
        block(1, 3, "C", vec![vec_member("z", 2)]),
    ])
    .unwrap();
    assert_eq!(groups.len(), 2);
    assert_eq!(groups[0].set, 1);
    assert_eq!(groups[0].uniforms.len(), 2);
    assert_eq!(groups[0].uniforms[1].binding, 3);
    assert_eq!(groups[0].uniforms[1].name, "C");
    assert_eq!(groups[1].set, 0);
    assert_eq!(groups[1].uniforms[0].vars[0].0, "y");
    assert_eq!(uniform_groups(&vec![]).unwrap().len(), 0);
}

#[test]
fn repeated_binding_keeps_the_last() {
    let groups = uniform_groups(&vec![
        block(0, 0, "Old", vec![float_member("x")]),
        block(0, 0, "New", vec![int_member("y")]),
    ])
    .unwrap();
    assert_eq!(groups.len(), 1);
    assert_eq!(groups[0].uniforms.len(), 1);
    assert_eq!(groups[0].uniforms[0].name, "New");
}

#[test]
fn uniform_size_follows_layout() {
    let u = uniform_of(&block(0, 0, "Light", vec![vec_member("color", 3), float_member("intensity")])).unwrap();
    assert_eq!(u.size(), 20);
    let mut out = Vec::new();
    u.write(&mut out);
    assert_eq!(out.len(), 20);
    assert_eq!(&out[16..20], &1.0f32.to_le_bytes());
}

#[test]
fn sampled_texture_binding_is_rejected_with_its_place() {
    let tex = BindingInfo { name: "tex".to_string(), set: 2, binding: 5, kind: DescriptorKind::SampledImage, block: None };
    let r = uniform_groups(&vec![block(0, 0, "A", vec![float_member("x")]), tex]);
    match r {
        Err(ReflectError::UnsupportedBinding { set, binding }) => {
            assert_eq!(set, 2);
            assert_eq!(binding, 5);
        }
        _ => panic!("expected a rejected binding"),
    }
}

#[test]
fn rejected_build_leaves_active_program_unchanged() {
    let mut active = Some(program(vec![block(0, 0, "A", vec![float_member("x")])]));
    set_value(active.as_mut().unwrap(), "x", Variable::Float(0.5f32.to_bits()));
    let tex = BindingInfo { name: "tex".to_string(), set: 0, binding: 1, kind: DescriptorKind::CombinedImageSampler, block: None };
    if let Ok(groups) = uniform_groups(&vec![tex]) {
        install(&mut active, Program::new((), groups));
    }
    assert_eq!(value(active.as_ref().unwrap(), "x"), Variable::Float(0.5f32.to_bits()));
}

#[test]
fn unsupported_field_names_field_and_struct() {
    let mut mat = vec_member("m", 4);
    mat.type_flags |= 0x200;
    match uniform_groups(&vec![block(0, 0, "Params", vec![float_member("ok"), mat, int_member("later")])]) {
        Err(ReflectError::UnsupportedField { field, uniform }) => {
            assert_eq!(field, "m");
            assert_eq!(uniform, "Params");
        }
        _ => panic!("expected a rejected field"),
    }
}

#[test]
fn missing_type_description_is_reported() {
    let b = BindingInfo { name: "params".to_string(), set: 0, binding: 0, kind: DescriptorKind::UniformBuffer, block: None };
    match uniform_groups(&vec![b]) {
        Err(ReflectError::MissingType { name }) => assert_eq!(name, "params"),
        _ => panic!("expected a missing type"),
    }
}

#[test]
fn reload_light_float_to_int() {
    let mut old = program(vec![block(0, 0, "Light", vec![vec_member("color", 3), float_member("intensity")])]);
    let color = Variable::Vec3([0.2f32.to_bits(), 0.4f32.to_bits(), 0.6f32.to_bits()]);
    set_value(&mut old, "color", color);
    set_value(&mut old, "intensity", Variable::Float(2.75f32.to_bits()));
    let mut new = program(vec![block(0, 0, "Light", vec![vec_member("color", 3), int_member("intensity")])]);
    new.initialize(&old);
    assert_eq!(value(&new, "color"), color);
    assert_eq!(value(&new, "intensity"), Variable::Int(2));
}

#[test]
fn migration_into_identical_schema_copies_every_value() {
    let bindings = || {
        vec![
            block(0, 0, "A", vec![int_member("i"), float_member("f"), vec_member("v", 4)]),
            block(1, 2, "B", vec![vec_member("w", 2)]),
        ]
    };
    let mut old = program(bindings());
    set_value(&mut old, "i", Variable::Int(-8));
    set_value(&mut old, "f", Variable::Float(3.5f32.to_bits()));
    set_value(&mut old, "v", Variable::Vec4([1, 2, 3, 4]));
    set_value(&mut old, "w", Variable::Vec2([5, 6]));
    let mut new = program(bindings());
    new.initialize(&old);
    for field in ["i", "f", "v", "w"] {
        assert_eq!(value(&new, field), value(&old, field));
    }
}

#[test]
fn migration_matches_only_same_set_and_binding() {
    let mut old = program(vec![block(0, 0, "A", vec![float_member("x")])]);
    set_value(&mut old, "x", Variable::Float(9.0f32.to_bits()));
    let mut new = program(vec![block(0, 1, "A", vec![float_member("x"), float_member("y")])]);
    new.initialize(&old);
    assert_eq!(value(&new, "x"), Variable::Float(ONE_BITS));
    assert_eq!(value(&new, "y"), Variable::Float(ONE_BITS));
}

#[test]
fn install_first_and_next_program() {
    let mut active: Option<Program<u32>> = None;
    install(&mut active, Program::new(1, uniform_groups(&vec![block(0, 0, "A", vec![int_member("n")])]).unwrap()));
    assert_eq!(active.as_ref().unwrap().gpu, 1);
    active.as_mut().unwrap().uniform_groups[0].uniforms[0].vars[0].1 = Variable::Int(77);
    install(&mut active, Program::new(2, uniform_groups(&vec![block(0, 0, "A", vec![float_member("n")])]).unwrap()));
    let p = active.as_ref().unwrap();
    assert_eq!(p.gpu, 2);
    assert_eq!(p.uniform_groups[0].uniforms[0].vars[0].1, Variable::Float(77.0f32.to_bits()));
}

#[test]
fn program_new_has_default_constants() {
    let p = Program::new((), vec![UniformGroup { set: 0, uniforms: vec![Uniform { binding: 0, name: "U".to_string(), vars: vec![] }] }]);
    assert_eq!(p.consts.aspect, ONE_BITS);
    assert_eq!(p.uniform_groups.len(), 1);
}

fn path(parts: &[&str]) -> Vec<String> {
    parts.iter().map(|s| s.to_string()).collect()
}

#[test]
fn watcher_signals_only_completed_write_of_target() {
    let target = path(&["/", "shaders", "main.glsl"]);
    let other = path(&["/", "shaders", "other.glsl"]);
    let close_write = 0b010_0000;
    let write = 0b001_0000;
    assert!(is_reload_event(Some(&target), Some(close_write), &target));
    assert!(!is_reload_event(Some(&other), Some(close_write), &target));
    assert!(!is_reload_event(Some(&target), Some(write), &target));
    assert!(!is_reload_event(None, Some(close_write), &target));
    assert!(!is_reload_event(Some(&target), None, &target));
    let events = [(other.clone(), write), (other, close_write), (target.clone(), write), (target.clone(), close_write)];
    let signals = events.iter().filter(|(p, op)| is_reload_event(Some(p), Some(*op), &target)).count();
    assert_eq!(signals, 1);
}

#[test]
fn compile_outcomes_map_to_actions() {
    match next_action(CompileOutcome::Compiled(vec![block(0, 0, "A", vec![float_member("x")])])) {
        CompileAction::Publish(groups) => assert_eq!(groups[0].uniforms[0].name, "A"),
        _ => panic!("expected a program"),
    }
    let tex = BindingInfo { name: "t".to_string(), set: 1, binding: 4, kind: DescriptorKind::StorageBuffer, block: None };
    match next_action(CompileOutcome::Compiled(vec![tex])) {
        CompileAction::ReportLayout(ReflectError::UnsupportedBinding { set, binding }) => assert_eq!((set, binding), (1, 4)),
        _ => panic!("expected a layout error"),
    }
    match next_action(CompileOutcome::Diagnostic("1:2 syntax error".to_string())) {
        CompileAction::ReportDiagnostic(d) => assert_eq!(d, "1:2 syntax error"),
        _ => panic!("expected a diagnostic"),
    }
    match next_action(CompileOutcome::BackendFailure("internal".to_string())) {
        CompileAction::Abort(m) => assert_eq!(m, "internal"),
        _ => panic!("expected an abort"),
    }
}
