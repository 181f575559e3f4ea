use vstd::prelude::*;
use vstd::slice::slice_to_vec;

use crate::bytes::{be_u32, split, split_as_u32};

verus! {

/// An encoded function identifier: the top bit tells native from user
/// functions, the other 31 bits index into the respective table.
#[derive(Clone, Copy, Debug, PartialEq, Eq, Structural)]
pub struct FuncId(pub u32);

impl FuncId {
    /// Whether the identifier names a native function.
    pub fn is_native(&self) -> (r: bool)
        ensures
            r == (self.0 >= 0x8000_0000),
    {
        let x = self.0;
        let r = x & 0x8000_0000u32 == 0x8000_0000u32;
        assert(r == (x >= 0x8000_0000)) by (bit_vector)
            requires r == (x & 0x8000_0000u32 == 0x8000_0000u32);
        r
    }

    /// The index into the native or user function table.
    pub fn decode(&self) -> (r: u32)
        ensures
            r == self.0 % 0x8000_0000,
    {
        let x = self.0;
        let r = x & 0x7FFF_FFFFu32;
        assert(r == x % 0x8000_0000) by (bit_vector)
            requires r == x & 0x7FFF_FFFFu32;
        r
    }
}

} // verus!

verus! {

/// A code section: a length and that many raw bytes of bytecode.
#[derive(Debug, Clone, PartialEq, Eq)]
pub struct CodeSection {
    pub code_length: u32,
    pub code: Vec<u8>,
}

/// Why a code section could not be read.
#[derive(Debug, Clone, Copy, PartialEq, Eq, Structural)]
pub enum CodeSectionError {
    MissingLength,
    IncongruentLength,
}

/// What reading a code section off the front of `b` gives: the code and the rest.
pub open spec fn code_section_spec(b: Seq<u8>) -> Result<(Seq<u8>, Seq<u8>), CodeSectionError> {
    if b.len() < 4 {
        Err(CodeSectionError::MissingLength)
    } else if be_u32(b) > b.len() - 4 {
        Err(CodeSectionError::IncongruentLength)
    } else {
        let n = be_u32(b) as int;
        Ok((b.subrange(4, 4 + n), b.skip(4 + n)))
    }
}

impl CodeSection {
    /// Reads a code section off the front of the bytes and hands back the rest.
    pub fn from_bytes(bytes: &[u8]) -> (r: Result<(CodeSection, &[u8]), CodeSectionError>)
        ensures
            match code_section_spec(bytes@) {
                Ok((code, rest)) => r matches Ok((s, r_rest)) && s.code@ == code && s.code_length
                    == code.len() && r_rest@ == rest,
                Err(e) => r == Err::<(CodeSection, &[u8]), _>(e),
            },
    {
        let (code_length, rest) = match split_as_u32(bytes) {
            Some(x) => x,
            None => return Err(CodeSectionError::MissingLength),
        };
        let (code_bytes, rest) = match split(rest, code_length as usize) {
            Some(x) => x,
            None => return Err(CodeSectionError::IncongruentLength),
        };
        let code = slice_to_vec(code_bytes);
        proof {
            assert(code@ =~= bytes@.subrange(4, 4 + code_length as int));
            assert(rest@ =~= bytes@.skip(4 + code_length as int));
        }
        Ok((CodeSection { code_length, code }, rest))
    }
}

/// Names what `String::from_utf8` makes of a byte sequence: the characters, or
/// `None` where the bytes are not UTF-8.
pub uninterp spec fn utf8_decode(b: Seq<u8>) -> Option<Seq<char>>;

/// Relies on `String::from_utf8`: it accepts exactly the valid UTF-8 sequences,
/// and what it gives depends on the bytes alone.
#[verifier::external_body]
fn decode_utf8(bytes: Vec<u8>) -> (r: Option<String>)
    ensures
        match utf8_decode(bytes@) {
            Some(s) => r matches Some(t) && t@ == s,
            None => r is None,
        },
{
    String::from_utf8(bytes).ok()
}

/// Why a length-prefixed string could not be read.
#[derive(Debug, Clone, Copy, PartialEq, Eq, Structural)]
pub enum StringError {
    MissingLength,
    IncongruentLength,
    Utf8Error,
}

/// What reading one length-prefixed string off the front of `b` gives.
pub open spec fn string_spec(b: Seq<u8>) -> Result<(Seq<char>, Seq<u8>), StringError> {
    if b.len() < 4 {
        Err(StringError::MissingLength)
    } else if be_u32(b) > b.len() - 4 {
        Err(StringError::IncongruentLength)
    } else {
        let n = be_u32(b) as int;
        match utf8_decode(b.subrange(4, 4 + n)) {
            Some(s) => Ok((s, b.skip(4 + n))),
            None => Err(StringError::Utf8Error),
        }
    }
}

/// What reading length-prefixed strings until the bytes run out gives.
pub open spec fn strings_spec(b: Seq<u8>) -> Result<Seq<Seq<char>>, StringError>
    decreases b.len(),
{
    if b.len() == 0 {
        Ok(seq![])
    } else if b.len() < 4 {
        Err(StringError::MissingLength)
    } else if be_u32(b) > b.len() - 4 {
        Err(StringError::IncongruentLength)
    } else {
        let n = be_u32(b) as int;
        match utf8_decode(b.subrange(4, 4 + n)) {
            Some(s) => match strings_spec(b.skip(4 + n)) {
                Ok(ss) => Ok(seq![s] + ss),
                Err(e) => Err(e),
            },
            None => Err(StringError::Utf8Error),
        }
    }
}

/// The views of a vector of strings.
pub open spec fn strings_view(v: Seq<String>) -> Seq<Seq<char>> {
    v.map_values(|s: String| s@)
}

/// Reads one length-prefixed UTF-8 string and hands back the rest.
pub fn parse_string(bytes: &[u8]) -> (r: Result<(String, &[u8]), StringError>)
    ensures
        match string_spec(bytes@) {
            Ok((s, rest)) => r matches Ok((t, r_rest)) && t@ == s && r_rest@ == rest,
            Err(e) => r == Err::<(String, &[u8]), _>(e),
        },
{
    let (length, bytes2) = match split_as_u32(bytes) {
        Some(x) => x,
        None => return Err(StringError::MissingLength),
    };
    let (front, rest) = match split(bytes2, length as usize) {
        Some(x) => x,
        None => return Err(StringError::IncongruentLength),
    };
    proof {
        assert(front@ =~= bytes@.subrange(4, 4 + length as int));
        assert(rest@ =~= bytes@.skip(4 + length as int));
    }
    match decode_utf8(slice_to_vec(front)) {
        Some(s) => Ok((s, rest)),
        None => Err(StringError::Utf8Error),
    }
}

/// Reads length-prefixed strings until the bytes run out.
pub fn parse_strings(bytes: &[u8]) -> (r: Result<Vec<String>, StringError>)
    ensures
        match strings_spec(bytes@) {
            Ok(ss) => r matches Ok(v) && strings_view(v@) == ss,
            Err(e) => r == Err::<Vec<String>, _>(e),
        },
{
    let mut strings: Vec<String> = Vec::new();
    let mut rest = bytes;
    while rest.len() > 0
        invariant
            match strings_spec(rest@) {
                Ok(ss) => strings_spec(bytes@) == Ok::<_, StringError>(strings_view(strings@) + ss),
                Err(e) => strings_spec(bytes@) == Err::<Seq<Seq<char>>, _>(e),
            },
        decreases rest@.len(),
    {
        let (s, next) = match parse_string(rest) {
            Ok(x) => x,
            Err(e) => return Err(e),
        };
        proof {
            let ghost old_strings = strings_view(strings@);
            assert(strings_view(strings@.push(s)) =~= old_strings.push(s@));
            match strings_spec(next@) {
                Ok(ss) => {
                    assert(old_strings + (seq![s@] + ss) =~= old_strings.push(s@) + ss);
                },
                Err(e) => {},
            }
        }
        strings.push(s);
        rest = next;
    }
    proof {
        assert(strings_view(strings@) + seq![] =~= strings_view(strings@));
    }
    Ok(strings)
}

/// A string section: a byte length and the strings that those bytes hold.
#[derive(Debug, Clone, PartialEq, Eq)]
pub struct StringSection {
    pub strings_length: u32,
    pub strings: Vec<String>,
}

/// Why a string section could not be read.
#[derive(Debug, Clone, Copy, PartialEq, Eq, Structural)]
pub enum StringSectionError {
    MissingLength,
    IncongruentLength,
    StringError(StringError),
}

/// What reading a string section off the front of `b` gives: the strings and the rest.
pub open spec fn string_section_spec(b: Seq<u8>) -> Result<
    (Seq<Seq<char>>, Seq<u8>),
    StringSectionError,
> {
    if b.len() < 4 {
        Err(StringSectionError::MissingLength)
    } else if be_u32(b) > b.len() - 4 {
        Err(StringSectionError::IncongruentLength)
    } else {
        let n = be_u32(b) as int;
        match strings_spec(b.subrange(4, 4 + n)) {
            Ok(ss) => Ok((ss, b.skip(4 + n))),
            Err(e) => Err(StringSectionError::StringError(e)),
        }
    }
}

impl StringSection {
    /// Reads a string section off the front of the bytes and hands back the rest.
    pub fn from_bytes(bytes: &[u8]) -> (r: Result<(StringSection, &[u8]), StringSectionError>)
        ensures
            match string_section_spec(bytes@) {
                Ok((ss, rest)) => r matches Ok((s, r_rest)) && strings_view(s.strings@) == ss
                    && s.strings_length == be_u32(bytes@) && r_rest@ == rest,
                Err(e) => r == Err::<(StringSection, &[u8]), _>(e),
            },
    {
        let (strings_length, rest) = match split_as_u32(bytes) {
            Some(x) => x,
            None => return Err(StringSectionError::MissingLength),
        };
        let (strings_bytes, rest) = match split(rest, strings_length as usize) {
            Some(x) => x,
            None => return Err(StringSectionError::IncongruentLength),
        };
        proof {
            assert(strings_bytes@ =~= bytes@.subrange(4, 4 + strings_length as int));
            assert(rest@ =~= bytes@.skip(4 + strings_length as int));
        }
        let strings = match parse_strings(strings_bytes) {
            Ok(x) => x,
            Err(e) => return Err(StringSectionError::StringError(e)),
        };
        Ok((StringSection { strings_length, strings }, rest))
    }
}

} // verus!

verus! {

/// What a function record holds: id, name index, arity, locals count, start
/// address and the indices of the outer variables that it captures.
pub type FunctionRecord = (u32, u32, u32, u32, u32, Seq<u32>);

/// The `n` big-endian `u32`s at the front of `b`.
pub open spec fn u32s_spec(b: Seq<u8>, n: nat) -> Seq<u32> {
    Seq::new(n, |k: int| be_u32(b.skip(4 * k)) as u32)
}

/// The number of bytes of the function record at the front of `b`.
pub open spec fn function_len(b: Seq<u8>) -> int {
    24 + 4 * be_u32(b.skip(20)) as int
}

/// What reading one function record off the front of `b` gives.
pub open spec fn function_spec(b: Seq<u8>) -> Result<(FunctionRecord, Seq<u8>), FunctionError> {
    if b.len() < 4 {
        Err(FunctionError::MissingId)
    } else if b.len() < 8 {
        Err(FunctionError::MissingNameIndex)
    } else if b.len() < 12 {
        Err(FunctionError::MissingArity)
    } else if b.len() < 16 {
        Err(FunctionError::MissingLocalsCount)
    } else if b.len() < 20 {
        Err(FunctionError::MissingAddress)
    } else if b.len() < 24 {
        Err(FunctionError::MissingCapturesLength)
    } else if function_len(b) > b.len() {
        Err(FunctionError::MissingCapture)
    } else {
        let n = be_u32(b.skip(20));
        Ok(
            (
                (
                    be_u32(b) as u32,
                    be_u32(b.skip(4)) as u32,
                    be_u32(b.skip(8)) as u32,
                    be_u32(b.skip(12)) as u32,
                    be_u32(b.skip(16)) as u32,
                    u32s_spec(b.skip(24), n),
                ),
                b.skip(function_len(b)),
            ),
        )
    }
}

/// What reading function records until the bytes run out gives.
pub open spec fn functions_spec(b: Seq<u8>) -> Result<Seq<FunctionRecord>, FunctionError>
    decreases b.len(),
{
    if b.len() == 0 {
        Ok(seq![])
    } else {
        match function_spec(b) {
            Err(e) => Err(e),
            Ok((f, _)) => if 0 < function_len(b) <= b.len() {
                match functions_spec(b.skip(function_len(b))) {
                    Ok(fs) => Ok(seq![f] + fs),
                    Err(e) => Err(e),
                }
            } else {
                Ok(seq![f])
            },
        }
    }
}

/// Metadata of a user function.
#[derive(Debug, Clone, PartialEq, Eq)]
pub struct Function {
    pub id: FuncId,
    pub name_index: u32,
    pub arity: u32,
    pub locals_count: u32,
    pub address: u32,
    /// Indices of the enclosing function's variables that a closure of this
    /// function captures.
    pub captures: Vec<u32>,
}

impl Function {
    pub open spec fn record(&self) -> FunctionRecord {
        (self.id.0, self.name_index, self.arity, self.locals_count, self.address, self.captures@)
    }
}

/// Why a function record could not be read.
#[derive(Debug, Clone, Copy, PartialEq, Eq, Structural)]
pub enum FunctionError {
    MissingId,
    MissingNameIndex,
    MissingArity,
    MissingLocalsCount,
    MissingAddress,
    MissingCapturesLength,
    MissingCapture,
}

/// Reads `n` big-endian `u32`s off the front of the bytes.
fn read_u32s(bytes: &[u8], n: u32) -> (r: Option<(Vec<u32>, &[u8])>)
    ensures
        (4 * n <= bytes@.len()) <==> r is Some,
        r matches Some((v, rest)) ==> v@ == u32s_spec(bytes@, n as nat) && rest@ == bytes@.skip(
            4 * n,
        ),
{
    let mut v: Vec<u32> = Vec::new();
    let mut rest = bytes;
    let mut i: u32 = 0;
    while i < n
        invariant
            i <= n,
            4 * i <= bytes@.len(),
            rest@ == bytes@.skip(4 * i),
            v@ == u32s_spec(bytes@, i as nat),
        decreases n - i,
    {
        let (x, next) = match split_as_u32(rest) {
            Some(p) => p,
            None => return None,
        };
        proof {
            assert(next@ =~= bytes@.skip(4 * (i + 1)));
            assert(v@.push(x) =~= u32s_spec(bytes@, (i + 1) as nat));
        }
        v.push(x);
        rest = next;
        i = i + 1;
    }
    Some((v, rest))
}

impl Function {
    /// Reads one function record off the front of the bytes and hands back the rest.
    pub fn from_bytes(bytes: &[u8]) -> (r: Result<(Function, &[u8]), FunctionError>)
        ensures
            match function_spec(bytes@) {
                Ok((f, rest)) => r matches Ok((g, r_rest)) && g.record() == f && r_rest@ == rest,
                Err(e) => r == Err::<(Function, &[u8]), _>(e),
            },
    {
        let (id, b) = match split_as_u32(bytes) {
            Some(x) => x,
            None => return Err(FunctionError::MissingId),
        };
        let (name_index, b) = match split_as_u32(b) {
            Some(x) => x,
            None => return Err(FunctionError::MissingNameIndex),
        };
        let (arity, b) = match split_as_u32(b) {
            Some(x) => x,
            None => return Err(FunctionError::MissingArity),
        };
        let (locals_count, b) = match split_as_u32(b) {
            Some(x) => x,
            None => return Err(FunctionError::MissingLocalsCount),
        };
        let (address, b) = match split_as_u32(b) {
            Some(x) => x,
            None => return Err(FunctionError::MissingAddress),
        };
        proof {
            assert(b@ =~= bytes@.skip(20));
        }
        let (count, b) = match split_as_u32(b) {
            Some(x) => x,
            None => return Err(FunctionError::MissingCapturesLength),
        };
        proof {
            assert(b@ =~= bytes@.skip(24));
        }
        let (captures, rest) = match read_u32s(b, count) {
            Some(x) => x,
            None => return Err(FunctionError::MissingCapture),
        };
        proof {
            assert(rest@ =~= bytes@.skip(function_len(bytes@)));
            assert(bytes@.skip(4) =~= bytes@.skip(4));
        }
        let function = Function { id: FuncId(id), name_index, arity, locals_count, address, captures };
        Ok((function, rest))
    }

    /// The encoded identifier of the function.
    pub fn id(&self) -> (r: FuncId)
        ensures
            r == self.id,
    {
        self.id
    }

    /// The index of the function's name in the string table.
    pub fn name_index(&self) -> (r: u32)
        ensures
            r == self.name_index,
    {
        self.name_index
    }

    /// The number of parameters the function takes.
    pub fn arity(&self) -> (r: u32)
        ensures
            r == self.arity,
    {
        self.arity
    }

    /// The number of local variables the function allocates.
    pub fn locals_count(&self) -> (r: u32)
        ensures
            r == self.locals_count,
    {
        self.locals_count
    }

    /// The bytecode address at which the function starts.
    pub fn address(&self) -> (r: u32)
        ensures
            r == self.address,
    {
        self.address
    }
}

/// The records of a vector of functions.
pub open spec fn records(v: Seq<Function>) -> Seq<FunctionRecord> {
    v.map_values(|f: Function| f.record())
}

/// Reads function records until the bytes run out.
pub fn parse_functions(bytes: &[u8]) -> (r: Result<Vec<Function>, FunctionError>)
    ensures
        match functions_spec(bytes@) {
            Ok(fs) => r matches Ok(v) && records(v@) == fs,
            Err(e) => r == Err::<Vec<Function>, _>(e),
        },
{
    let mut functions: Vec<Function> = Vec::new();
    let mut rest = bytes;
    while rest.len() > 0
        invariant
            match functions_spec(rest@) {
                Ok(fs) => functions_spec(bytes@) == Ok::<_, FunctionError>(records(functions@) + fs),
                Err(e) => functions_spec(bytes@) == Err::<Seq<FunctionRecord>, _>(e),
            },
        decreases rest@.len(),
    {
        let (f, next) = match Function::from_bytes(rest) {
            Ok(x) => x,
            Err(e) => return Err(e),
        };
        proof {
            let ghost old_fs = records(functions@);
            assert(records(functions@.push(f)) =~= old_fs.push(f.record()));
            match functions_spec(next@) {
                Ok(fs) => {
                    assert(old_fs + (seq![f.record()] + fs) =~= old_fs.push(f.record()) + fs);
                },
                Err(e) => {},
            }
        }
        functions.push(f);
        rest = next;
    }
    proof {
        assert(records(functions@) + seq![] =~= records(functions@));
    }
    Ok(functions)
}

/// A function section: a byte length and the function records those bytes hold.
#[derive(Debug, Clone, PartialEq, Eq)]
pub struct FunctionSection {
    pub functions_length: u32,
    pub functions: Vec<Function>,
}

/// Why a function section could not be read.
#[derive(Debug, Clone, Copy, PartialEq, Eq, Structural)]
pub enum FunctionSectionError {
    MissingLength,
    IncongruentLength,
    FunctionError(FunctionError),
}

/// What reading a function section off the front of `b` gives.
pub open spec fn function_section_spec(b: Seq<u8>) -> Result<
    (Seq<FunctionRecord>, Seq<u8>),
    FunctionSectionError,
> {
    if b.len() < 4 {
        Err(FunctionSectionError::MissingLength)
    } else if be_u32(b) > b.len() - 4 {
        Err(FunctionSectionError::IncongruentLength)
    } else {
        let n = be_u32(b) as int;
        match functions_spec(b.subrange(4, 4 + n)) {
            Ok(fs) => Ok((fs, b.skip(4 + n))),
            Err(e) => Err(FunctionSectionError::FunctionError(e)),
        }
    }
}

impl FunctionSection {
    /// Reads a function section off the front of the bytes and hands back the rest.
    pub fn from_bytes(bytes: &[u8]) -> (r: Result<(FunctionSection, &[u8]), FunctionSectionError>)
        ensures
            match function_section_spec(bytes@) {
                Ok((fs, rest)) => r matches Ok((s, r_rest)) && records(s.functions@) == fs
                    && s.functions_length == be_u32(bytes@) && r_rest@ == rest,
                Err(e) => r == Err::<(FunctionSection, &[u8]), _>(e),
            },
    {
        let (functions_length, rest) = match split_as_u32(bytes) {
            Some(x) => x,
            None => return Err(FunctionSectionError::MissingLength),
        };
        let (functions_bytes, rest) = match split(rest, functions_length as usize) {
            Some(x) => x,
            None => return Err(FunctionSectionError::IncongruentLength),
        };
        proof {
            assert(functions_bytes@ =~= bytes@.subrange(4, 4 + functions_length as int));
            assert(rest@ =~= bytes@.skip(4 + functions_length as int));
        }
        let functions = match parse_functions(functions_bytes) {
            Ok(x) => x,
            Err(e) => return Err(FunctionSectionError::FunctionError(e)),
        };
        Ok((FunctionSection { functions_length, functions }, rest))
    }
}

} // verus!

verus! {

/// The magic bytes that open every Ark file: `totheark` in ASCII.
pub open spec fn magic() -> Seq<u8> {
    seq![0x74u8, 0x6f, 0x74, 0x68, 0x65, 0x61, 0x72, 0x6b]
}

/// The marker of an Ark file; it holds nothing once the magic bytes are checked.
#[derive(Debug, Clone, Copy, PartialEq, Eq)]
pub struct Identifier;

/// The header of an Ark file.
#[derive(Debug, Clone, Copy, PartialEq, Eq)]
pub struct Header {
    pub identifier: Identifier,
    /// The function to run first.
    pub main: FuncId,
}

/// A loaded Ark file.
#[derive(Debug, Clone, PartialEq, Eq)]
pub struct Ark {
    pub header: Header,
    pub function_section: FunctionSection,
    pub code_section: CodeSection,
    pub string_section: StringSection,
}

/// Why an Ark file could not be loaded.
#[derive(Debug, Clone, Copy, PartialEq, Eq, Structural)]
pub enum ArkError {
    BadMagic,
    MissingMain,
    FunctionSection(FunctionSectionError),
    CodeSection(CodeSectionError),
    StringSection(StringSectionError),
    TrailingBytes,
}

/// What loading `b` as an Ark file gives: the main function, the function
/// records, the code and the strings.
pub open spec fn ark_spec(b: Seq<u8>) -> Result<
    (u32, Seq<FunctionRecord>, Seq<u8>, Seq<Seq<char>>),
    ArkError,
> {
    if b.len() < 8 || b.take(8) != magic() {
        Err(ArkError::BadMagic)
    } else if b.len() < 12 {
        Err(ArkError::MissingMain)
    } else {
        match function_section_spec(b.skip(12)) {
            Err(e) => Err(ArkError::FunctionSection(e)),
            Ok((fs, b1)) => match code_section_spec(b1) {
                Err(e) => Err(ArkError::CodeSection(e)),
                Ok((code, b2)) => match string_section_spec(b2) {
                    Err(e) => Err(ArkError::StringSection(e)),
                    Ok((ss, b3)) => if b3.len() != 0 {
                        Err(ArkError::TrailingBytes)
                    } else {
                        Ok((be_u32(b.skip(8)) as u32, fs, code, ss))
                    },
                },
            },
        }
    }
}

/// Whether the first eight bytes are the magic bytes.
fn has_magic(b: &[u8]) -> (r: bool)
    requires
        b@.len() >= 8,
    ensures
        r == (b@.take(8) == magic()),
{
    let r = b[0] == 0x74 && b[1] == 0x6f && b[2] == 0x74 && b[3] == 0x68 && b[4] == 0x65 && b[5]
        == 0x61 && b[6] == 0x72 && b[7] == 0x6b;
    proof {
        if r {
            assert(b@.take(8) =~= magic());
        } else {
            assert(b@.take(8) != magic()) by {
                if b@.take(8) == magic() {
                    assert(b@.take(8)[0] == b@[0]);
                    assert(b@.take(8)[1] == b@[1]);
                    assert(b@.take(8)[2] == b@[2]);
                    assert(b@.take(8)[3] == b@[3]);
                    assert(b@.take(8)[4] == b@[4]);
                    assert(b@.take(8)[5] == b@[5]);
                    assert(b@.take(8)[6] == b@[6]);
                    assert(b@.take(8)[7] == b@[7]);
                }
            }
        }
    }
    r
}

impl Ark {
    /// Loads a whole Ark file: header, function section, code section and
    /// string section, with nothing after them.
    pub fn from_bytes(bytes: &[u8]) -> (r: Result<Ark, ArkError>)
        ensures
            match ark_spec(bytes@) {
                Ok((main, fs, code, ss)) => r matches Ok(ark) && ark.header.main.0 == main
                    && records(ark.function_section.functions@) == fs && ark.code_section.code@
                    == code && strings_view(ark.string_section.strings@) == ss,
                Err(e) => r == Err::<Ark, _>(e),
            },
    {
        if bytes.len() < 8 || !has_magic(bytes) {
            return Err(ArkError::BadMagic);
        }
        let (_, rest) = match split(bytes, 8) {
            Some(x) => x,
            None => return Err(ArkError::BadMagic),
        };
        let (main, rest) = match split_as_u32(rest) {
            Some(x) => x,
            None => return Err(ArkError::MissingMain),
        };
        proof {
            assert(rest@ =~= bytes@.skip(12));
        }
        let (function_section, rest) = match FunctionSection::from_bytes(rest) {
            Ok(x) => x,
            Err(e) => return Err(ArkError::FunctionSection(e)),
        };
        let (code_section, rest) = match CodeSection::from_bytes(rest) {
            Ok(x) => x,
            Err(e) => return Err(ArkError::CodeSection(e)),
        };
        let (string_section, rest) = match StringSection::from_bytes(rest) {
            Ok(x) => x,
            Err(e) => return Err(ArkError::StringSection(e)),
        };
        if rest.len() != 0 {
            return Err(ArkError::TrailingBytes);
        }
        let header = Header { identifier: Identifier, main: FuncId(main) };
        Ok(Ark { header, function_section, code_section, string_section })
    }
}

} // verus!
