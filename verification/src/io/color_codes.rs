//! VT100 ANSI escape codes for foreground colors.

use vstd::prelude::*;

use crate::bytes::ascii_bytes;
use crate::bytes::str_to_bytes;

verus! {

pub open spec fn red_code() -> Seq<u8> {
    ascii_bytes("\x1B[31m"@)
}

pub open spec fn green_code() -> Seq<u8> {
    ascii_bytes("\x1B[32m"@)
}

pub open spec fn yellow_code() -> Seq<u8> {
    ascii_bytes("\x1B[33m"@)
}

pub open spec fn blue_code() -> Seq<u8> {
    ascii_bytes("\x1B[34m"@)
}

pub open spec fn reset_code() -> Seq<u8> {
    ascii_bytes("\x1B[39m"@)
}

pub fn red() -> (r: Vec<u8>)
    ensures
        r@ == red_code(),
{
    let s = "\x1B[31m";
    proof {
        reveal_strlit("\x1B[31m");
        assert(vstd::string::is_ascii(s));
    }
    str_to_bytes(s)
}

pub fn green() -> (r: Vec<u8>)
    ensures
        r@ == green_code(),
{
    let s = "\x1B[32m";
    proof {
        reveal_strlit("\x1B[32m");
        assert(vstd::string::is_ascii(s));
    }
    str_to_bytes(s)
}

pub fn yellow() -> (r: Vec<u8>)
    ensures
        r@ == yellow_code(),
{
    let s = "\x1B[33m";
    proof {
        reveal_strlit("\x1B[33m");
        assert(vstd::string::is_ascii(s));
    }
    str_to_bytes(s)
}

pub fn blue() -> (r: Vec<u8>)
    ensures
        r@ == blue_code(),
{
    let s = "\x1B[34m";
    proof {
        reveal_strlit("\x1B[34m");
        assert(vstd::string::is_ascii(s));
    }
    str_to_bytes(s)
}

/// Resets the foreground color to its original value.
pub fn reset() -> (r: Vec<u8>)
    ensures
        r@ == reset_code(),
{
    let s = "\x1B[39m";
    proof {
        reveal_strlit("\x1B[39m");
        assert(vstd::string::is_ascii(s));
    }
    str_to_bytes(s)
}

} // verus!
