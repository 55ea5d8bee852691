//! Startup registration through the Windows registry's `Run` key: the key
//! and value names, the error type, the data written (the quoted
//! executable path, as null-terminated UTF-16), and how a query answers
//! "is startup enabled". The registry calls themselves are the
//! application's part.

use vstd::prelude::*;

use crate::text::{chars_of, push_char};

verus! {

/// The `Run` key under `HKEY_CURRENT_USER` where startup entries live.
pub const RUN_KEY_PATH: &'static str = "Software\\Microsoft\\Windows\\CurrentVersion\\Run";

/// The value name of this application's startup entry.
pub const APP_VALUE_NAME: &'static str = "WinFXStart";

/// The Win32 error code of a missing key or value.
pub const ERROR_FILE_NOT_FOUND: u32 = 2;

/// `HRESULT_FROM_WIN32(ERROR_FILE_NOT_FOUND)`, i.e. `0x80070002`.
pub const HRESULT_FILE_NOT_FOUND: i32 = -2147024894;

pub open spec fn hresult_bits(code: u32) -> u32 {
    (code & 0xFFFF) | 0x0007_0000 | 0x8000_0000
}

/// `HRESULT_FROM_WIN32` of a positive Win32 error code: the low 16 bits of
/// the code, the Win32 facility (7) and the failure bit.
pub fn hresult_from_win32(code: u32) -> (r: i32)
    ensures
        r as u32 == hresult_bits(code),
{
    let bits: u32 = (code & 0xFFFF) | (7u32 << 16) | 0x8000_0000u32;
    assert(bits == hresult_bits(code)) by (bit_vector)
        requires
            bits == (code & 0xFFFF) | (7u32 << 16) | 0x8000_0000u32,
    ;
    let r = bits as i32;
    assert(r as u32 == bits) by (bit_vector)
        requires
            r == bits as i32,
    ;
    r
}

/// Errors of the registry operations.
#[derive(Debug, Clone, Copy, PartialEq, Eq, Structural)]
pub enum RegistryError {
    /// A Win32 call failed with this HRESULT.
    Win32 { code: i32 },
    /// The running executable's path could not be determined.
    ExePath,
}

/// The uppercase hexadecimal digit of `d < 16`.
pub open spec fn hex_digit(d: u32) -> char {
    if d < 10 {
        ((48 + d) as u8) as char
    } else {
        ((55 + d) as u8) as char
    }
}

/// `v` as eight uppercase hexadecimal digits (`{:08X}`).
pub open spec fn hex8(v: u32) -> Seq<char> {
    Seq::new(8, |i: int| hex_digit(((v as int) / pow16(7 - i)) as u32 % 16))
}

/// `16^k`.
pub open spec fn pow16(k: int) -> int
    decreases k,
{
    if k <= 0 {
        1
    } else {
        16 * pow16(k - 1)
    }
}

proof fn lemma_pow16_positive(k: int)
    ensures
        pow16(k) >= 1,
    decreases k,
{
    if k > 0 {
        lemma_pow16_positive(k - 1);
    }
}

fn push_hex8(s: &mut String, v: u32)
    ensures
        final(s)@ == old(s)@ + hex8(v),
{
    let ghost start = s@;
    let mut i: u32 = 0;
    let mut divisor: u32 = 0x1000_0000;
    assert(pow16(7) == 0x1000_0000) by {
        reveal_with_fuel(pow16, 8);
    }
    while i < 8
        invariant
            i <= 8,
            divisor >= 1,
            i < 8 ==> divisor as int == pow16(7 - i as int),
            s@ == start + hex8(v).take(i as int),
        decreases 8 - i,
    {
        let d = (v / divisor) % 16;
        let c = if d < 10 {
            ((48 + d) as u8) as char
        } else {
            ((55 + d) as u8) as char
        };
        assert(c == hex8(v)[i as int]);
        push_char(s, c);
        assert(hex8(v).take(i + 1) =~= hex8(v).take(i as int).push(c));
        assert(s@ =~= start + hex8(v).take(i + 1));
        if i < 7 {
            assert(pow16(7 - i as int) == 16 * pow16(7 - (i + 1) as int));
            proof {
                lemma_pow16_positive(7 - (i + 1) as int);
            }
            divisor = divisor / 16;
        }
        i = i + 1;
    }
    assert(hex8(v).take(8) =~= hex8(v));
}

impl RegistryError {
    /// The error's message.
    pub fn to_string(&self) -> (r: String)
        ensures
            match self {
                RegistryError::Win32 { code } => r@ == "Win32 registry error: HRESULT 0x"@ + hex8(*code as u32),
                RegistryError::ExePath => r@ == "could not determine current executable path"@,
            },
    {
        match self {
            RegistryError::Win32 { code } => {
                let mut r = String::from_str("Win32 registry error: HRESULT 0x");
                push_hex8(&mut r, *code as u32);
                r
            },
            RegistryError::ExePath => String::from_str("could not determine current executable path"),
        }
    }

    /// The error of a failed Win32 call with this HRESULT.
    pub fn from_hresult(code: i32) -> (r: Self)
        ensures
            r == (RegistryError::Win32 { code }),
    {
        RegistryError::Win32 { code }
    }
}

/// Whether a failed call's HRESULT says the key or value does not exist.
pub fn is_not_found(code: i32) -> (r: bool)
    ensures
        r == (code == HRESULT_FILE_NOT_FOUND),
{
    code == HRESULT_FILE_NOT_FOUND
}

/// The data of the startup entry: the executable's path in double quotes,
/// so that a path with spaces stays one token for the shell.
pub fn quoted_executable(path: &str) -> (r: String)
    ensures
        r@ == "\""@ + path@ + "\""@,
{
    let mut r = String::from_str("\"");
    r.append(path);
    r.append("\"");
    r
}

/// The UTF-16 encoding of one character.
pub open spec fn utf16_of(c: char) -> Seq<u16> {
    let u = c as u32;
    if u < 0x10000 {
        seq![u as u16]
    } else {
        let v = (u - 0x10000) as u32;
        seq![(0xD800 + v / 0x400) as u16, (0xDC00 + v % 0x400) as u16]
    }
}

/// The UTF-16 encoding of a character sequence.
pub open spec fn utf16(s: Seq<char>) -> Seq<u16>
    decreases s.len(),
{
    if s.len() == 0 {
        Seq::empty()
    } else {
        utf16(s.drop_last()) + utf16_of(s.last())
    }
}

/// `s` as null-terminated UTF-16, for the Win32 `*W` functions.
pub fn to_wide(s: &str) -> (r: Vec<u16>)
    ensures
        r@ == utf16(s@).push(0u16),
{
    let v = chars_of(s);
    let mut out: Vec<u16> = Vec::new();
    let mut i: usize = 0;
    while i < v.len()
        invariant
            i <= v.len(),
            v@ == s@,
            out@ == utf16(s@.take(i as int)),
        decreases v.len() - i,
    {
        let c = v[i];
        let u = c as u32;
        assert(s@.take(i + 1).drop_last() =~= s@.take(i as int));
        if u < 0x10000 {
            out.push(u as u16);
        } else {
            let w = u - 0x10000;
            out.push((0xD800 + w / 0x400) as u16);
            out.push((0xDC00 + w % 0x400) as u16);
        }
        i = i + 1;
        assert(out@ =~= utf16(s@.take(i as int)));
    }
    assert(s@.take(v.len() as int) =~= s@);
    out.push(0u16);
    out
}

/// Whether startup is enabled, from the answer to querying the entry: it
/// is when the value exists; a failed query counts as disabled.
pub fn startup_enabled(query: Result<Option<String>, RegistryError>) -> (r: bool)
    ensures
        r == (query matches Ok(Some(_))),
{
    match query {
        Ok(found) => found.is_some(),
        Err(_) => false,
    }
}

} // verus!
