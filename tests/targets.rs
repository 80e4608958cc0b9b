use move_web::package::{BuildError, Package};
use move_web::targets::sui::SuiTarget;
use move_web::targets::target::{output, TargetType};

fn units() -> Vec<Vec<u8>> {
    vec![vec![0xa1, 0x1c, 0xeb, 0x0b], vec![0xa1, 0x1c, 0xeb, 0x0b, 0x06]]
}

#[test]
fn target_names() {
    assert_eq!(TargetType::from("sui".to_string()), TargetType::Sui);
    assert_eq!(TargetType::from("SUI".to_string()), TargetType::Unknown);
    assert_eq!(TargetType::from_name("aptos"), TargetType::Unknown);
    assert_eq!(TargetType::Sui.to_string(), "sui");
    assert_eq!(TargetType::Unknown.to_string(), "unknown");
}

#[test]
fn sui_build_of_two_units_without_init() {
    let d = output(&units(), &vec![TargetType::Sui], "");
    assert!(d.error.is_none());
    assert_eq!(d.outputs.len(), 1);
    let o = &d.outputs[0];
    assert_eq!(o.dir, "sui");
    let p = Package::from_bytes(&o.release.blob).unwrap();
    assert_eq!(p.modules.len(), 2);
    assert_eq!(p.modules[1].code, units()[1]);
    assert!(p.init_script.is_none());
    assert_eq!(o.release.package.to_bytes(), o.release.blob);
}

#[test]
fn unknown_target_stops_the_build() {
    let d = output(&units(), &vec![TargetType::Sui, TargetType::Unknown, TargetType::Sui], "");
    assert_eq!(d.outputs.len(), 1);
    assert_eq!(d.error, Some(BuildError::UnsupportedTarget));
    let d = output(&units(), &vec![TargetType::Unknown, TargetType::Sui], "");
    assert!(d.outputs.is_empty());
    assert_eq!(d.error, Some(BuildError::UnsupportedTarget));
}

#[test]
fn malformed_init_function_stops_the_build() {
    let d = output(&units(), &vec![TargetType::Sui, TargetType::Sui], "0x1::m");
    assert!(d.outputs.is_empty());
    assert_eq!(d.error, Some(BuildError::MalformedInitFunction));
}

#[test]
fn sui_build_with_init_call() {
    let r = SuiTarget::default().output(&units(), "0x1::m::init").unwrap();
    let s = r.package.init_script.as_ref().unwrap();
    assert_eq!(s.function, b"init".to_vec());
    assert!(s.ty_args.is_empty() && s.args.is_empty());
    let back = Package::from_bytes(&r.blob).unwrap();
    assert_eq!(back.init_script.unwrap().module.address, b"0x1".to_vec());
}

#[test]
fn every_target_gets_the_same_release() {
    let d = output(&units(), &vec![TargetType::Sui, TargetType::Sui], "");
    assert_eq!(d.outputs.len(), 2);
    assert_eq!(d.outputs[0].release.blob, d.outputs[1].release.blob);
}
