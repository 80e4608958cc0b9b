//! Preparing bytecode text for disassembly, and naming what disassembly leaves behind.
use vstd::prelude::*;

verus! {

/// Why bytecode text could not be turned into bytes.
#[derive(Debug, Clone, Copy, PartialEq, Eq)]
pub enum DisassembleError {
    /// The text is not an even number of hexadecimal digits.
    HexDecode,
}

/// The value of a hexadecimal digit, of either case.
pub open spec fn hex_value(c: char) -> Option<u8> {
    let v = c as u32;
    if 48 <= v <= 57 {
        Some((v - 48) as u8)
    } else if 97 <= v <= 102 {
        Some((v - 87) as u8)
    } else if 65 <= v <= 70 {
        Some((v - 55) as u8)
    } else {
        None
    }
}

/// The bytes that `s` spells out two hexadecimal digits each, high digit first;
/// `None` when its length is odd or it holds anything but hexadecimal digits.
pub open spec fn hex_decoded(s: Seq<char>) -> Option<Seq<u8>> {
    if s.len() % 2 == 0 && forall|i: int| 0 <= i < s.len() ==> (#[trigger] hex_value(s[i])) is Some {
        Some(
            Seq::new(
                s.len() / 2,
                |k: int| (hex_value(s[2 * k])->Some_0 * 16 + hex_value(s[2 * k + 1])->Some_0) as u8,
            ),
        )
    } else {
        None
    }
}

/// Relies on hex::decode: on the UTF-8 bytes of `s` it fails for an odd length or a
/// byte that is no hexadecimal digit (every byte of a non-ASCII character is one), and
/// otherwise gives one byte per pair of digits, high digit first.
#[verifier::external_body]
fn decode_hex(s: &str) -> (r: Option<Vec<u8>>)
    ensures
        match hex_decoded(s@) {
            Some(b) => r matches Some(v) && v@ == b,
            None => r is None,
        },
{
    hex::decode(s.as_bytes()).ok()
}

/// `s` without a leading `0x`.
pub open spec fn strip_hex_prefix(s: Seq<char>) -> Seq<char> {
    if s.len() >= 2 && s[0] == '0' && s[1] == 'x' {
        s.subrange(2, s.len() as int)
    } else {
        s
    }
}

/// The bytecode that hexadecimal `text` holds, with or without a leading `0x`.
pub fn bytecode_from_text(text: &str) -> (r: Result<Vec<u8>, DisassembleError>)
    ensures
        match hex_decoded(strip_hex_prefix(text@)) {
            Some(b) => r matches Ok(v) && v@ == b,
            None => r == Err::<Vec<u8>, DisassembleError>(DisassembleError::HexDecode),
        },
{
    let len = text.unicode_len();
    let digits = if len >= 2 && text.get_char(0) == '0' && text.get_char(1) == 'x' {
        text.substring_char(2, len)
    } else {
        text
    };
    match decode_hex(digits) {
        Some(v) => Ok(v),
        None => Err(DisassembleError::HexDecode),
    }
}

/// What the disassembly command was asked for.
#[derive(Debug, PartialEq, Eq)]
pub struct DisassembleArgs {
    pub file_path: String,
    pub skip_code: bool,
    pub skip_private: bool,
    pub skip_basic_blocks: bool,
    pub skip_locals: bool,
}

/// What the disassembler is to print.
#[derive(Debug, Clone, Copy, PartialEq, Eq, Structural)]
pub struct DisassembleOptions {
    pub print_code: bool,
    pub only_externally_visible: bool,
    pub print_basic_blocks: bool,
    pub print_locals: bool,
}

impl DisassembleArgs {
    /// Code, basic blocks and locals are printed unless their skip flag is set;
    /// private members are left out exactly when `skip_private` is set.
    pub fn options(&self) -> (r: DisassembleOptions)
        ensures
            r.print_code == !self.skip_code,
            r.only_externally_visible == self.skip_private,
            r.print_basic_blocks == !self.skip_basic_blocks,
            r.print_locals == !self.skip_locals,
    {
        DisassembleOptions {
            print_code: !self.skip_code,
            only_externally_visible: self.skip_private,
            print_basic_blocks: !self.skip_basic_blocks,
            print_locals: !self.skip_locals,
        }
    }
}

/// The one file that a disassembly leaves beside `file_name`: `<file_name>.d` with the
/// text on success, `<file_name>.e` with the failure's description otherwise.
pub fn disassembly_artifact(file_name: &str, rendered: Result<String, String>) -> (r: (String, String))
    ensures
        match rendered {
            Ok(text) => r.0@ == file_name@ + ".d"@ && r.1 == text,
            Err(e) => r.0@ == file_name@ + ".e"@ && r.1 == e,
        },
{
    let name = String::from_str(file_name);
    match rendered {
        Ok(text) => (name.concat(".d"), text),
        Err(e) => (name.concat(".e"), e),
    }
}

} // verus!
