//! Numeric replies that the library acts on (RFC 2812, section 5.2).

use vstd::prelude::*;

verus! {

pub const ERR_NONICKNAMEGIVEN: i32 = 431;
pub const ERR_ERRONEUSNICKNAME: i32 = 432;
pub const ERR_NICKNAMEINUSE: i32 = 433;
pub const ERR_NICKCOLLISION: i32 = 436;
pub const ERR_UNAVAILRESOURCE: i32 = 437;
pub const ERR_RESTRICTED: i32 = 484;

} // verus!
