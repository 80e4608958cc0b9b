use move_web::package::{init_script, BuildError, FunctionId, Module, ModuleId, Package, ScriptFunction};

fn two_module_package() -> Package {
    let modules = vec![Module::new(vec![1, 2, 3]), Module::new(vec![9])];
    Package::new(modules, None).unwrap()
}

#[test]
fn canonical_form_without_init_call() {
    let p = two_module_package();
    assert_eq!(p.to_bytes(), vec![2, 3, 1, 2, 3, 1, 9, 0]);
}

#[test]
fn canonical_form_with_init_call() {
    let call = ScriptFunction::new(
        ModuleId { address: b"0x1".to_vec(), name: b"m".to_vec() },
        b"init".to_vec(),
        vec![],
        vec![vec![7]],
    );
    let p = Package::new(vec![Module::new(vec![5])], Some(call)).unwrap();
    assert_eq!(
        p.to_bytes(),
        vec![1, 1, 5, 1, 3, b'0', b'x', b'1', 1, b'm', 4, b'i', b'n', b'i', b't', 0, 1, 1, 7]
    );
}

#[test]
fn long_lengths_use_several_prefix_bytes() {
    let p = Package::new(vec![Module::new(vec![0xab; 300])], None).unwrap();
    let b = p.to_bytes();
    assert_eq!(&b[..3], &[1, 0xac, 0x02]);
    assert_eq!(b.len(), 1 + 2 + 300 + 1);
}

#[test]
fn canonical_form_reads_back() {
    let call = ScriptFunction::new(
        ModuleId { address: b"0x2".to_vec(), name: b"coin".to_vec() },
        b"init".to_vec(),
        vec![vec![1, 2]],
        vec![vec![], vec![3]],
    );
    let p = Package::new(vec![Module::new(vec![0; 200]), Module::new(vec![4, 5])], Some(call)).unwrap();
    let q = Package::from_bytes(&p.to_bytes()).unwrap();
    assert_eq!(q.modules.len(), 2);
    assert_eq!(q.modules[0].code, vec![0; 200]);
    assert_eq!(q.modules[1].code, vec![4, 5]);
    let s = q.init_script.unwrap();
    assert_eq!(s.module.address, b"0x2".to_vec());
    assert_eq!(s.module.name, b"coin".to_vec());
    assert_eq!(s.function, b"init".to_vec());
    assert_eq!(s.ty_args, vec![vec![1, 2]]);
    assert_eq!(s.args, vec![vec![], vec![3]]);
}

#[test]
fn canonical_form_is_deterministic() {
    assert_eq!(two_module_package().to_bytes(), two_module_package().to_bytes());
}

#[test]
fn malformed_canonical_forms_are_refused() {
    assert!(Package::from_bytes(&vec![]).is_none());
    assert!(Package::from_bytes(&vec![1, 3, 1, 2, 3, 0, 0]).is_none());
    assert!(Package::from_bytes(&vec![1, 3, 1, 2, 3, 2]).is_none());
    assert!(Package::from_bytes(&vec![1, 4, 1, 2, 3, 0]).is_none());
    assert!(Package::from_bytes(&vec![0x80, 0x80, 0x80, 0x80, 0x80, 0x00, 0]).is_none());
    let p = Package::from_bytes(&vec![0, 0]).unwrap();
    assert!(p.modules.is_empty());
    assert!(p.init_script.is_none());
}

#[test]
fn function_id_has_three_parts() {
    let id = FunctionId::from("0x1::counter::init").unwrap();
    assert_eq!(id.module.address, b"0x1".to_vec());
    assert_eq!(id.module.name, b"counter".to_vec());
    assert_eq!(id.function, b"init".to_vec());
}

#[test]
fn function_id_with_wrong_part_count_fails() {
    assert_eq!(FunctionId::from("0x1::counter").unwrap_err(), BuildError::MalformedInitFunction);
    assert_eq!(FunctionId::from("a::b::c::d").unwrap_err(), BuildError::MalformedInitFunction);
    assert_eq!(FunctionId::from("plain").unwrap_err(), BuildError::MalformedInitFunction);
}

#[test]
fn init_script_has_no_arguments() {
    let s = init_script("0x1::counter::init").unwrap().unwrap();
    assert_eq!(s.module.name, b"counter".to_vec());
    assert!(s.ty_args.is_empty());
    assert!(s.args.is_empty());
}

#[test]
fn empty_init_function_means_no_call() {
    assert!(init_script("").unwrap().is_none());
    assert_eq!(init_script("0x1:counter:init").unwrap_err(), BuildError::MalformedInitFunction);
}
