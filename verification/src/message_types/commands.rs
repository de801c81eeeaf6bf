//! The command words the library reads and writes.

use vstd::prelude::*;
use crate::parse::compose::vec_from_array;

verus! {

pub open spec fn cmd_join() -> Seq<u8> {
    seq![0x4au8, 0x4f, 0x49, 0x4e]
}

pub open spec fn cmd_nick() -> Seq<u8> {
    seq![0x4eu8, 0x49, 0x43, 0x4b]
}

pub open spec fn cmd_ping() -> Seq<u8> {
    seq![0x50u8, 0x49, 0x4e, 0x47]
}

pub open spec fn cmd_pong() -> Seq<u8> {
    seq![0x50u8, 0x4f, 0x4e, 0x47]
}

pub open spec fn cmd_privmsg() -> Seq<u8> {
    seq![0x50u8, 0x52, 0x49, 0x56, 0x4d, 0x53, 0x47]
}

pub open spec fn cmd_user() -> Seq<u8> {
    seq![0x55u8, 0x53, 0x45, 0x52]
}

pub open spec fn cmd_who() -> Seq<u8> {
    seq![0x57u8, 0x48, 0x4f]
}

pub open spec fn cmd_quit() -> Seq<u8> {
    seq![0x51u8, 0x55, 0x49, 0x54]
}

pub open spec fn cmd_kick() -> Seq<u8> {
    seq![0x4bu8, 0x49, 0x43, 0x4b]
}

pub open spec fn cmd_notice() -> Seq<u8> {
    seq![0x4eu8, 0x4f, 0x54, 0x49, 0x43, 0x45]
}

pub open spec fn cmd_mode() -> Seq<u8> {
    seq![0x4du8, 0x4f, 0x44, 0x45]
}

pub open spec fn cmd_part() -> Seq<u8> {
    seq![0x50u8, 0x41, 0x52, 0x54]
}

pub open spec fn cmd_topic() -> Seq<u8> {
    seq![0x54u8, 0x4f, 0x50, 0x49, 0x43]
}

pub open spec fn cmd_invite() -> Seq<u8> {
    seq![0x49u8, 0x4e, 0x56, 0x49, 0x54, 0x45]
}

pub fn join_bytes() -> (r: Vec<u8>)
    ensures
        r@ == cmd_join(),
{
    vec_from_array([0x4au8, 0x4f, 0x49, 0x4e])
}

pub fn nick_bytes() -> (r: Vec<u8>)
    ensures
        r@ == cmd_nick(),
{
    vec_from_array([0x4eu8, 0x49, 0x43, 0x4b])
}

pub fn ping_bytes() -> (r: Vec<u8>)
    ensures
        r@ == cmd_ping(),
{
    vec_from_array([0x50u8, 0x49, 0x4e, 0x47])
}

pub fn pong_bytes() -> (r: Vec<u8>)
    ensures
        r@ == cmd_pong(),
{
    vec_from_array([0x50u8, 0x4f, 0x4e, 0x47])
}

pub fn privmsg_bytes() -> (r: Vec<u8>)
    ensures
        r@ == cmd_privmsg(),
{
    vec_from_array([0x50u8, 0x52, 0x49, 0x56, 0x4d, 0x53, 0x47])
}

pub fn user_bytes() -> (r: Vec<u8>)
    ensures
        r@ == cmd_user(),
{
    vec_from_array([0x55u8, 0x53, 0x45, 0x52])
}

pub fn who_bytes() -> (r: Vec<u8>)
    ensures
        r@ == cmd_who(),
{
    vec_from_array([0x57u8, 0x48, 0x4f])
}

pub fn quit_bytes() -> (r: Vec<u8>)
    ensures
        r@ == cmd_quit(),
{
    vec_from_array([0x51u8, 0x55, 0x49, 0x54])
}

pub fn kick_bytes() -> (r: Vec<u8>)
    ensures
        r@ == cmd_kick(),
{
    vec_from_array([0x4bu8, 0x49, 0x43, 0x4b])
}

pub fn notice_bytes() -> (r: Vec<u8>)
    ensures
        r@ == cmd_notice(),
{
    vec_from_array([0x4eu8, 0x4f, 0x54, 0x49, 0x43, 0x45])
}

pub fn mode_bytes() -> (r: Vec<u8>)
    ensures
        r@ == cmd_mode(),
{
    vec_from_array([0x4du8, 0x4f, 0x44, 0x45])
}

pub fn part_bytes() -> (r: Vec<u8>)
    ensures
        r@ == cmd_part(),
{
    vec_from_array([0x50u8, 0x41, 0x52, 0x54])
}

pub fn topic_bytes() -> (r: Vec<u8>)
    ensures
        r@ == cmd_topic(),
{
    vec_from_array([0x54u8, 0x4f, 0x50, 0x49, 0x43])
}

pub fn invite_bytes() -> (r: Vec<u8>)
    ensures
        r@ == cmd_invite(),
{
    vec_from_array([0x49u8, 0x4e, 0x56, 0x49, 0x54, 0x45])
}

} // verus!

verus! {

/// A three-byte command such as a numeric reply code.
pub fn code_bytes(a: u8, b: u8, c: u8) -> (r: Vec<u8>)
    ensures
        r@ == seq![a, b, c],
{
    vec_from_array([a, b, c])
}

} // verus!
