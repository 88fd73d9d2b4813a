//! Reading values handed over by Lua.
use vstd::prelude::*;

verus! {

/// Why a value could not be read from the Lua stack.
#[derive(Clone, Copy, PartialEq, Eq, Structural, Debug)]
pub enum LuaError {
    NotUft8Str,
    NullStr,
    WrongArrayLength,
    WrongSizedTypeForArray,
}

/// `std::str::from_utf8`: the bytes read as a string slice, when they are
/// valid UTF-8; this contract claims that std's notion of valid UTF-8 is
/// `valid_utf8` and that the string holds exactly the given bytes.
#[verifier::external_body]
fn str_from_utf8<'a>(v: &'a [u8]) -> (r: Option<&'a str>)
    ensures
        r is Some <==> vstd::utf8::valid_utf8(v@),
        r matches Some(s) ==> vstd::string::StringSliceAdditionalSpecFns::spec_bytes(s) == v@,
{
    std::str::from_utf8(v).ok()
}

/// The string Lua returned for a stack slot: `raw` is the byte buffer Lua
/// handed out, or `None` when Lua returned a null pointer.
pub fn lua_str<'a>(raw: Option<&'a [u8]>) -> (r: Result<&'a str, LuaError>)
    ensures
        raw is None ==> r == Err::<&str, LuaError>(LuaError::NullStr),
        raw matches Some(b) ==> (r is Ok <==> vstd::utf8::valid_utf8(b@)),
        raw matches Some(b) ==> (r matches Ok(s) ==> vstd::string::StringSliceAdditionalSpecFns::spec_bytes(s) == b@),
        raw matches Some(b) ==> (!vstd::utf8::valid_utf8(b@) ==> r == Err::<&str, LuaError>(
            LuaError::NotUft8Str,
        )),
{
    match raw {
        None => Err(LuaError::NullStr),
        Some(b) => match str_from_utf8(b) {
            Some(s) => Ok(s),
            None => Err(LuaError::NotUft8Str),
        },
    }
}

/// The stack index of a table after its key has been pushed on top:
/// relative (negative) indices move down by one, absolute ones stay.
pub fn index_table_slot(table_index: i32) -> (r: i32)
    requires
        table_index > i32::MIN,
    ensures
        r == if table_index < 0 {
            table_index - 1
        } else {
            table_index as int
        },
{
    if table_index < 0 {
        table_index - 1
    } else {
        table_index
    }
}

} // verus!
