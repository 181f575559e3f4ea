use noa_vm::ark::{
    Ark, ArkError, CodeSection, CodeSectionError, FuncId, Function, FunctionError, FunctionSection,
    StringSection, StringSectionError, StringError,
};
use noa_vm::bytes::{get, split, split_as_u32};
use noa_vm::code_reader::CodeReader;
use noa_vm::exception::Exception;

#[test]
fn funcid_is_native() {
    let id = FuncId(0b00000000_00000000_00000010_01101101);
    assert!(!id.is_native());

    let id = FuncId(0b10000000_00000000_00000011_10011110);
    assert!(id.is_native());
}

#[test]
fn funcid_decode() {
    let id = FuncId(0b00000000_00000000_00000010_01101101);
    assert_eq!(id.decode(), 621);

    let id = FuncId(0b10000000_00000000_00000011_10011110);
    assert_eq!(id.decode(), 926);
}

#[test]
fn reads_code_section() {
    let bytes = &[0, 0, 0, 4, 0xe, 6, 2, 1];

    let (section, rest) = CodeSection::from_bytes(bytes).unwrap();

    assert_eq!(section, CodeSection { code_length: 4, code: vec![0xe, 6, 2, 1] });
    assert_eq!(rest, []);
}

#[test]
fn missing_length() {
    let bytes = &[6, 9];

    let e = CodeSection::from_bytes(bytes).unwrap_err();

    assert_eq!(e, CodeSectionError::MissingLength);
}

#[test]
fn incongruent_length() {
    let bytes = &[0, 0, 0, 4, 6, 9];

    let e = CodeSection::from_bytes(bytes).unwrap_err();

    assert_eq!(e, CodeSectionError::IncongruentLength);
}

#[test]
fn reads_string_section() {
    let bytes = &[
        0, 0, 0, 25, 0, 0, 0, 3, 117, 119, 117, 0, 0, 0, 14, 111, 32, 105, 32, 195, 165, 97, 32,
        195, 164, 101, 32, 195, 182,
    ];

    let (section, rest) = StringSection::from_bytes(bytes).unwrap();

    assert_eq!(
        section,
        StringSection { strings_length: 25, strings: vec!["uwu".into(), "o i åa äe ö".into()] }
    );
    assert_eq!(rest, []);
}

#[test]
fn string_section_rejects_invalid_utf8() {
    let bytes = &[0, 0, 0, 6, 0, 0, 0, 2, 0xff, 0xfe];
    let e = StringSection::from_bytes(bytes).unwrap_err();
    assert_eq!(e, StringSectionError::StringError(StringError::Utf8Error));
}

#[test]
fn string_section_rejects_short_string() {
    let bytes = &[0, 0, 0, 6, 0, 0, 0, 9, 1, 2];
    let e = StringSection::from_bytes(bytes).unwrap_err();
    assert_eq!(e, StringSectionError::StringError(StringError::IncongruentLength));
}

#[test]
fn string_section_keeps_trailing_bytes() {
    let bytes = &[0, 0, 0, 5, 0, 0, 0, 1, 97, 7, 8];
    let (section, rest) = StringSection::from_bytes(bytes).unwrap();
    assert_eq!(section.strings, vec![String::from("a")]);
    assert_eq!(rest, [7, 8]);
}

fn function_record(id: u32, name: u32, arity: u32, locals: u32, address: u32, captures: &[u32]) -> Vec<u8> {
    let mut v = Vec::new();
    for x in [id, name, arity, locals, address, captures.len() as u32] {
        v.extend_from_slice(&x.to_be_bytes());
    }
    for c in captures {
        v.extend_from_slice(&c.to_be_bytes());
    }
    v
}

#[test]
fn reads_function_record() {
    let mut bytes = function_record(1, 2, 3, 4, 5, &[6, 7]);
    bytes.push(99);
    let (f, rest) = Function::from_bytes(&bytes).unwrap();
    assert_eq!(f.id(), FuncId(1));
    assert_eq!(f.name_index(), 2);
    assert_eq!(f.arity(), 3);
    assert_eq!(f.locals_count(), 4);
    assert_eq!(f.address(), 5);
    assert_eq!(f.captures, vec![6, 7]);
    assert_eq!(rest, [99]);
}

#[test]
fn function_record_errors() {
    assert_eq!(Function::from_bytes(&[0, 0]).unwrap_err(), FunctionError::MissingId);
    assert_eq!(Function::from_bytes(&[0; 6]).unwrap_err(), FunctionError::MissingNameIndex);
    assert_eq!(Function::from_bytes(&[0; 10]).unwrap_err(), FunctionError::MissingArity);
    assert_eq!(Function::from_bytes(&[0; 14]).unwrap_err(), FunctionError::MissingLocalsCount);
    assert_eq!(Function::from_bytes(&[0; 18]).unwrap_err(), FunctionError::MissingAddress);
    assert_eq!(Function::from_bytes(&[0; 22]).unwrap_err(), FunctionError::MissingCapturesLength);
    let bytes = function_record(0, 0, 0, 0, 0, &[1]);
    assert_eq!(Function::from_bytes(&bytes[..26]).unwrap_err(), FunctionError::MissingCapture);
}

#[test]
fn reads_function_section() {
    let mut body = function_record(0, 0, 1, 0, 0, &[]);
    body.extend(function_record(1, 1, 0, 2, 10, &[0]));
    let mut bytes = (body.len() as u32).to_be_bytes().to_vec();
    bytes.extend(body);
    let (section, rest) = FunctionSection::from_bytes(&bytes).unwrap();
    assert_eq!(section.functions.len(), 2);
    assert_eq!(section.functions[1].address, 10);
    assert_eq!(section.functions[1].captures, vec![0]);
    assert!(rest.is_empty());
}

fn ark_bytes(trailing: &[u8]) -> Vec<u8> {
    let mut bytes = b"totheark".to_vec();
    bytes.extend_from_slice(&0u32.to_be_bytes());
    let f = function_record(0, 0, 0, 0, 0, &[]);
    bytes.extend_from_slice(&(f.len() as u32).to_be_bytes());
    bytes.extend(f);
    bytes.extend_from_slice(&[0, 0, 0, 2, 0x17, 0x04]);
    bytes.extend_from_slice(&[0, 0, 0, 8, 0, 0, 0, 4, 109, 97, 105, 110]);
    bytes.extend_from_slice(trailing);
    bytes
}

#[test]
fn reads_ark_file() {
    let ark = Ark::from_bytes(&ark_bytes(&[])).unwrap();
    assert_eq!(ark.header.main, FuncId(0));
    assert_eq!(ark.function_section.functions.len(), 1);
    assert_eq!(ark.code_section.code, vec![0x17, 0x04]);
    assert_eq!(ark.string_section.strings, vec![String::from("main")]);
}

#[test]
fn ark_rejects_bad_magic_and_trailing_bytes() {
    let mut bytes = ark_bytes(&[]);
    bytes[0] = b'x';
    assert_eq!(Ark::from_bytes(&bytes).unwrap_err(), ArkError::BadMagic);
    assert_eq!(Ark::from_bytes(&ark_bytes(&[1])).unwrap_err(), ArkError::TrailingBytes);
    assert_eq!(Ark::from_bytes(b"totheark\0\0").unwrap_err(), ArkError::MissingMain);
}

#[test]
fn byte_helpers() {
    let xs = [1u8, 2, 3, 4, 5];
    assert_eq!(get(&xs, 1), Some((&2, &xs[2..])));
    assert_eq!(get(&xs, 5), None);
    assert_eq!(split(&xs, 2), Some((&xs[..2], &xs[2..])));
    assert_eq!(split(&xs, 6), None);
    assert_eq!(split_as_u32(&xs), Some((0x01020304, &xs[4..])));
    assert_eq!(split_as_u32(&xs[2..]), None);
}

#[test]
fn code_reader_reads_operands() {
    let mut r = CodeReader::new(vec![0, 0, 1, 2, 0xff, 0xff, 0xff, 0xfe, 1, 7]);
    assert_eq!(r.read_u32(), Ok(258));
    assert_eq!(r.read_i32(), Ok(-2));
    assert_eq!(r.read_bool(), Ok(true));
    assert_eq!(r.ip(), 9);
    assert_eq!(r.read_bytes(2), Err(Exception::Overrun));
    assert_eq!(r.read_byte(), Ok(7));
    assert_eq!(r.read_byte(), Err(Exception::Overrun));
    r.jump(2);
    assert_eq!(r.read_bytes_const::<2>(), Ok(&[1u8, 2][..]));
    r.advance();
    assert_eq!(r.ip(), 5);
}
