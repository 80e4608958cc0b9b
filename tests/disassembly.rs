use move_web::disasm::{bytecode_from_text, disassembly_artifact, DisassembleArgs, DisassembleError};

#[test]
fn hex_text_with_prefix_decodes() {
    assert_eq!(bytecode_from_text("0x00").unwrap(), vec![0]);
    assert_eq!(bytecode_from_text("0xa11ceb0b").unwrap(), vec![0xa1, 0x1c, 0xeb, 0x0b]);
}

#[test]
fn hex_text_without_prefix_decodes() {
    assert_eq!(bytecode_from_text("0A0b").unwrap(), vec![10, 11]);
    assert_eq!(bytecode_from_text("").unwrap(), Vec::<u8>::new());
}

#[test]
fn bad_hex_text_fails() {
    assert_eq!(bytecode_from_text("0xZZ").unwrap_err(), DisassembleError::HexDecode);
    assert_eq!(bytecode_from_text("abc").unwrap_err(), DisassembleError::HexDecode);
    assert_eq!(bytecode_from_text("0X00").unwrap_err(), DisassembleError::HexDecode);
    assert_eq!(bytecode_from_text("é0").unwrap_err(), DisassembleError::HexDecode);
}

#[test]
fn invalid_module_leaves_an_error_file() {
    let (name, body) = disassembly_artifact("coin.mv", Err("Module blob can't be deserialized".to_string()));
    assert_eq!(name, "coin.mv.e");
    assert_eq!(body, "Module blob can't be deserialized");
}

#[test]
fn rendered_module_leaves_a_text_file() {
    let (name, body) = disassembly_artifact("coin.mv", Ok("module 0x1.coin".to_string()));
    assert_eq!(name, "coin.mv.d");
    assert_eq!(body, "module 0x1.coin");
}

#[test]
fn skip_flags_turn_options_off() {
    let args = DisassembleArgs {
        file_path: "coin.mv".to_string(),
        skip_code: true,
        skip_private: false,
        skip_basic_blocks: true,
        skip_locals: false,
    };
    let o = args.options();
    assert!(!o.print_code);
    assert!(!o.only_externally_visible);
    assert!(!o.print_basic_blocks);
    assert!(o.print_locals);
}

#[test]
fn skip_private_hides_private_members() {
    let args = DisassembleArgs {
        file_path: "coin.mv".to_string(),
        skip_code: false,
        skip_private: true,
        skip_basic_blocks: false,
        skip_locals: false,
    };
    let o = args.options();
    assert!(o.only_externally_visible);
    assert!(o.print_code && o.print_basic_blocks && o.print_locals);
}
