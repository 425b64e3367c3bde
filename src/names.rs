use vstd::prelude::*;

use crate::bytes::extend_bytes;

verus! {

/// The bytes of `connection`.
pub open spec fn connection_name() -> Seq<u8> {
    seq![99u8, 111u8, 110u8, 110u8, 101u8, 99u8, 116u8, 105u8, 111u8, 110u8]
}

pub fn connection_name_bytes() -> (r: Vec<u8>)
    ensures
        r@ == connection_name(),
{
    let a: [u8; 10] = [99, 111, 110, 110, 101, 99, 116, 105, 111, 110];
    let mut r: Vec<u8> = Vec::new();
    extend_bytes(&mut r, &a);
    assert(r@ =~= connection_name());
    r
}

/// The bytes of `close`.
pub open spec fn close_value() -> Seq<u8> {
    seq![99u8, 108u8, 111u8, 115u8, 101u8]
}

pub fn close_value_bytes() -> (r: Vec<u8>)
    ensures
        r@ == close_value(),
{
    let a: [u8; 5] = [99, 108, 111, 115, 101];
    let mut r: Vec<u8> = Vec::new();
    extend_bytes(&mut r, &a);
    assert(r@ =~= close_value());
    r
}

/// The bytes of `user-agent`.
pub open spec fn user_agent_name() -> Seq<u8> {
    seq![117u8, 115u8, 101u8, 114u8, 45u8, 97u8, 103u8, 101u8, 110u8, 116u8]
}

pub fn user_agent_name_bytes() -> (r: Vec<u8>)
    ensures
        r@ == user_agent_name(),
{
    let a: [u8; 10] = [117, 115, 101, 114, 45, 97, 103, 101, 110, 116];
    let mut r: Vec<u8> = Vec::new();
    extend_bytes(&mut r, &a);
    assert(r@ =~= user_agent_name());
    r
}

/// The bytes of `zeptohttpc/0.10.0`.
pub open spec fn user_agent_value() -> Seq<u8> {
    seq![122u8, 101u8, 112u8, 116u8, 111u8, 104u8, 116u8, 116u8, 112u8, 99u8, 47u8, 48u8, 46u8, 49u8, 48u8, 46u8, 48u8]
}

pub fn user_agent_value_bytes() -> (r: Vec<u8>)
    ensures
        r@ == user_agent_value(),
{
    let a: [u8; 17] = [122, 101, 112, 116, 111, 104, 116, 116, 112, 99, 47, 48, 46, 49, 48, 46, 48];
    let mut r: Vec<u8> = Vec::new();
    extend_bytes(&mut r, &a);
    assert(r@ =~= user_agent_value());
    r
}

/// The bytes of `accept-encoding`.
pub open spec fn accept_encoding_name() -> Seq<u8> {
    seq![97u8, 99u8, 99u8, 101u8, 112u8, 116u8, 45u8, 101u8, 110u8, 99u8, 111u8, 100u8, 105u8, 110u8, 103u8]
}

pub fn accept_encoding_name_bytes() -> (r: Vec<u8>)
    ensures
        r@ == accept_encoding_name(),
{
    let a: [u8; 15] = [97, 99, 99, 101, 112, 116, 45, 101, 110, 99, 111, 100, 105, 110, 103];
    let mut r: Vec<u8> = Vec::new();
    extend_bytes(&mut r, &a);
    assert(r@ =~= accept_encoding_name());
    r
}

/// The bytes of `deflate, gzip`.
pub open spec fn accept_encoding_value() -> Seq<u8> {
    seq![100u8, 101u8, 102u8, 108u8, 97u8, 116u8, 101u8, 44u8, 32u8, 103u8, 122u8, 105u8, 112u8]
}

pub fn accept_encoding_value_bytes() -> (r: Vec<u8>)
    ensures
        r@ == accept_encoding_value(),
{
    let a: [u8; 13] = [100, 101, 102, 108, 97, 116, 101, 44, 32, 103, 122, 105, 112];
    let mut r: Vec<u8> = Vec::new();
    extend_bytes(&mut r, &a);
    assert(r@ =~= accept_encoding_value());
    r
}

/// The bytes of `content-length`.
pub open spec fn content_length_name() -> Seq<u8> {
    seq![99u8, 111u8, 110u8, 116u8, 101u8, 110u8, 116u8, 45u8, 108u8, 101u8, 110u8, 103u8, 116u8, 104u8]
}

pub fn content_length_name_bytes() -> (r: Vec<u8>)
    ensures
        r@ == content_length_name(),
{
    let a: [u8; 14] = [99, 111, 110, 116, 101, 110, 116, 45, 108, 101, 110, 103, 116, 104];
    let mut r: Vec<u8> = Vec::new();
    extend_bytes(&mut r, &a);
    assert(r@ =~= content_length_name());
    r
}

/// The bytes of `transfer-encoding`.
pub open spec fn transfer_encoding_name() -> Seq<u8> {
    seq![116u8, 114u8, 97u8, 110u8, 115u8, 102u8, 101u8, 114u8, 45u8, 101u8, 110u8, 99u8, 111u8, 100u8, 105u8, 110u8, 103u8]
}

pub fn transfer_encoding_name_bytes() -> (r: Vec<u8>)
    ensures
        r@ == transfer_encoding_name(),
{
    let a: [u8; 17] = [116, 114, 97, 110, 115, 102, 101, 114, 45, 101, 110, 99, 111, 100, 105, 110, 103];
    let mut r: Vec<u8> = Vec::new();
    extend_bytes(&mut r, &a);
    assert(r@ =~= transfer_encoding_name());
    r
}

/// The bytes of `chunked`.
pub open spec fn chunked_token() -> Seq<u8> {
    seq![99u8, 104u8, 117u8, 110u8, 107u8, 101u8, 100u8]
}

pub fn chunked_token_bytes() -> (r: Vec<u8>)
    ensures
        r@ == chunked_token(),
{
    let a: [u8; 7] = [99, 104, 117, 110, 107, 101, 100];
    let mut r: Vec<u8> = Vec::new();
    extend_bytes(&mut r, &a);
    assert(r@ =~= chunked_token());
    r
}

/// The bytes of `host`.
pub open spec fn host_name() -> Seq<u8> {
    seq![104u8, 111u8, 115u8, 116u8]
}

pub fn host_name_bytes() -> (r: Vec<u8>)
    ensures
        r@ == host_name(),
{
    let a: [u8; 4] = [104, 111, 115, 116];
    let mut r: Vec<u8> = Vec::new();
    extend_bytes(&mut r, &a);
    assert(r@ =~= host_name());
    r
}

/// The bytes of `content-encoding`.
pub open spec fn content_encoding_name() -> Seq<u8> {
    seq![99u8, 111u8, 110u8, 116u8, 101u8, 110u8, 116u8, 45u8, 101u8, 110u8, 99u8, 111u8, 100u8, 105u8, 110u8, 103u8]
}

pub fn content_encoding_name_bytes() -> (r: Vec<u8>)
    ensures
        r@ == content_encoding_name(),
{
    let a: [u8; 16] = [99, 111, 110, 116, 101, 110, 116, 45, 101, 110, 99, 111, 100, 105, 110, 103];
    let mut r: Vec<u8> = Vec::new();
    extend_bytes(&mut r, &a);
    assert(r@ =~= content_encoding_name());
    r
}

/// The bytes of `content-type`.
pub open spec fn content_type_name() -> Seq<u8> {
    seq![99u8, 111u8, 110u8, 116u8, 101u8, 110u8, 116u8, 45u8, 116u8, 121u8, 112u8, 101u8]
}

pub fn content_type_name_bytes() -> (r: Vec<u8>)
    ensures
        r@ == content_type_name(),
{
    let a: [u8; 12] = [99, 111, 110, 116, 101, 110, 116, 45, 116, 121, 112, 101];
    let mut r: Vec<u8> = Vec::new();
    extend_bytes(&mut r, &a);
    assert(r@ =~= content_type_name());
    r
}

/// The bytes of `charset=`.
pub open spec fn charset_key() -> Seq<u8> {
    seq![99u8, 104u8, 97u8, 114u8, 115u8, 101u8, 116u8, 61u8]
}

pub fn charset_key_bytes() -> (r: Vec<u8>)
    ensures
        r@ == charset_key(),
{
    let a: [u8; 8] = [99, 104, 97, 114, 115, 101, 116, 61];
    let mut r: Vec<u8> = Vec::new();
    extend_bytes(&mut r, &a);
    assert(r@ =~= charset_key());
    r
}

/// The bytes of `gzip`.
pub open spec fn gzip_token() -> Seq<u8> {
    seq![103u8, 122u8, 105u8, 112u8]
}

pub fn gzip_token_bytes() -> (r: Vec<u8>)
    ensures
        r@ == gzip_token(),
{
    let a: [u8; 4] = [103, 122, 105, 112];
    let mut r: Vec<u8> = Vec::new();
    extend_bytes(&mut r, &a);
    assert(r@ =~= gzip_token());
    r
}

/// The bytes of `deflate`.
pub open spec fn deflate_token() -> Seq<u8> {
    seq![100u8, 101u8, 102u8, 108u8, 97u8, 116u8, 101u8]
}

pub fn deflate_token_bytes() -> (r: Vec<u8>)
    ensures
        r@ == deflate_token(),
{
    let a: [u8; 7] = [100, 101, 102, 108, 97, 116, 101];
    let mut r: Vec<u8> = Vec::new();
    extend_bytes(&mut r, &a);
    assert(r@ =~= deflate_token());
    r
}

} // verus!
