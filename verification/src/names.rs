//! The header names and values of the gRPC requests and responses on the wire.
use vstd::prelude::*;

verus! {

/// The `:path` pseudo-header name.
pub open spec fn spec_path() -> Seq<u8> {
    seq![58u8, 112, 97, 116, 104]
}

/// The `:path` pseudo-header name.
pub fn path() -> (bytes: Vec<u8>)
    ensures
        bytes@ == spec_path(),
{
    let bytes = vec![58u8, 112, 97, 116, 104];
    assert(bytes@ =~= spec_path());
    bytes
}

/// The `:method` pseudo-header name.
pub open spec fn spec_method() -> Seq<u8> {
    seq![58u8, 109, 101, 116, 104, 111, 100]
}

/// The `:method` pseudo-header name.
pub fn method() -> (bytes: Vec<u8>)
    ensures
        bytes@ == spec_method(),
{
    let bytes = vec![58u8, 109, 101, 116, 104, 111, 100];
    assert(bytes@ =~= spec_method());
    bytes
}

/// The `POST` method.
pub open spec fn spec_post() -> Seq<u8> {
    seq![80u8, 79, 83, 84]
}

/// The `POST` method.
pub fn post() -> (bytes: Vec<u8>)
    ensures
        bytes@ == spec_post(),
{
    let bytes = vec![80u8, 79, 83, 84];
    assert(bytes@ =~= spec_post());
    bytes
}

/// The `content-type` header name.
pub open spec fn spec_content_type() -> Seq<u8> {
    seq![99u8, 111, 110, 116, 101, 110, 116, 45, 116, 121, 112, 101]
}

/// The `content-type` header name.
pub fn content_type() -> (bytes: Vec<u8>)
    ensures
        bytes@ == spec_content_type(),
{
    let bytes = vec![99u8, 111, 110, 116, 101, 110, 116, 45, 116, 121, 112, 101];
    assert(bytes@ =~= spec_content_type());
    bytes
}

/// The gRPC content type, `application/grpc`.
pub open spec fn spec_grpc_content_type() -> Seq<u8> {
    seq![97u8, 112, 112, 108, 105, 99, 97, 116, 105, 111, 110, 47, 103, 114, 112, 99]
}

/// The gRPC content type, `application/grpc`.
pub fn grpc_content_type() -> (bytes: Vec<u8>)
    ensures
        bytes@ == spec_grpc_content_type(),
{
    let bytes = vec![97u8, 112, 112, 108, 105, 99, 97, 116, 105, 111, 110, 47, 103, 114, 112, 99];
    assert(bytes@ =~= spec_grpc_content_type());
    bytes
}

/// The `grpc-accept-encoding` header name.
pub open spec fn spec_accept_encoding() -> Seq<u8> {
    seq![103u8, 114, 112, 99, 45, 97, 99, 99, 101, 112, 116, 45, 101, 110, 99, 111, 100, 105, 110, 103]
}

/// The `grpc-accept-encoding` header name.
pub fn accept_encoding() -> (bytes: Vec<u8>)
    ensures
        bytes@ == spec_accept_encoding(),
{
    let bytes = vec![103u8, 114, 112, 99, 45, 97, 99, 99, 101, 112, 116, 45, 101, 110, 99, 111, 100, 105, 110, 103];
    assert(bytes@ =~= spec_accept_encoding());
    bytes
}

/// The encodings offered, `identity,deflate,gzip`.
pub open spec fn spec_encodings() -> Seq<u8> {
    seq![105u8, 100, 101, 110, 116, 105, 116, 121, 44, 100, 101, 102, 108, 97, 116, 101, 44, 103, 122, 105, 112]
}

/// The encodings offered, `identity,deflate,gzip`.
pub fn encodings() -> (bytes: Vec<u8>)
    ensures
        bytes@ == spec_encodings(),
{
    let bytes = vec![105u8, 100, 101, 110, 116, 105, 116, 121, 44, 100, 101, 102, 108, 97, 116, 101, 44, 103, 122, 105, 112];
    assert(bytes@ =~= spec_encodings());
    bytes
}

/// The `te` header name.
pub open spec fn spec_te() -> Seq<u8> {
    seq![116u8, 101]
}

/// The `te` header name.
pub fn te() -> (bytes: Vec<u8>)
    ensures
        bytes@ == spec_te(),
{
    let bytes = vec![116u8, 101];
    assert(bytes@ =~= spec_te());
    bytes
}

/// The `trailers` value of `te`.
pub open spec fn spec_trailers() -> Seq<u8> {
    seq![116u8, 114, 97, 105, 108, 101, 114, 115]
}

/// The `trailers` value of `te`.
pub fn trailers() -> (bytes: Vec<u8>)
    ensures
        bytes@ == spec_trailers(),
{
    let bytes = vec![116u8, 114, 97, 105, 108, 101, 114, 115];
    assert(bytes@ =~= spec_trailers());
    bytes
}

/// The `:scheme` pseudo-header name.
pub open spec fn spec_scheme() -> Seq<u8> {
    seq![58u8, 115, 99, 104, 101, 109, 101]
}

/// The `:scheme` pseudo-header name.
pub fn scheme() -> (bytes: Vec<u8>)
    ensures
        bytes@ == spec_scheme(),
{
    let bytes = vec![58u8, 115, 99, 104, 101, 109, 101];
    assert(bytes@ =~= spec_scheme());
    bytes
}

/// The `http` scheme.
pub open spec fn spec_http() -> Seq<u8> {
    seq![104u8, 116, 116, 112]
}

/// The `http` scheme.
pub fn http() -> (bytes: Vec<u8>)
    ensures
        bytes@ == spec_http(),
{
    let bytes = vec![104u8, 116, 116, 112];
    assert(bytes@ =~= spec_http());
    bytes
}

/// The `:authority` pseudo-header name.
pub open spec fn spec_authority() -> Seq<u8> {
    seq![58u8, 97, 117, 116, 104, 111, 114, 105, 116, 121]
}

/// The `:authority` pseudo-header name.
pub fn authority() -> (bytes: Vec<u8>)
    ensures
        bytes@ == spec_authority(),
{
    let bytes = vec![58u8, 97, 117, 116, 104, 111, 114, 105, 116, 121];
    assert(bytes@ =~= spec_authority());
    bytes
}

/// The authority the client names, `localhost:1443`.
pub open spec fn spec_localhost() -> Seq<u8> {
    seq![108u8, 111, 99, 97, 108, 104, 111, 115, 116, 58, 49, 52, 52, 51]
}

/// The authority the client names, `localhost:1443`.
pub fn localhost() -> (bytes: Vec<u8>)
    ensures
        bytes@ == spec_localhost(),
{
    let bytes = vec![108u8, 111, 99, 97, 108, 104, 111, 115, 116, 58, 49, 52, 52, 51];
    assert(bytes@ =~= spec_localhost());
    bytes
}

/// The `:status` pseudo-header name.
pub open spec fn spec_status() -> Seq<u8> {
    seq![58u8, 115, 116, 97, 116, 117, 115]
}

/// The `:status` pseudo-header name.
pub fn status() -> (bytes: Vec<u8>)
    ensures
        bytes@ == spec_status(),
{
    let bytes = vec![58u8, 115, 116, 97, 116, 117, 115];
    assert(bytes@ =~= spec_status());
    bytes
}

/// The `grpc-status` trailer name.
pub open spec fn spec_grpc_status() -> Seq<u8> {
    seq![103u8, 114, 112, 99, 45, 115, 116, 97, 116, 117, 115]
}

/// The `grpc-status` trailer name.
pub fn grpc_status() -> (bytes: Vec<u8>)
    ensures
        bytes@ == spec_grpc_status(),
{
    let bytes = vec![103u8, 114, 112, 99, 45, 115, 116, 97, 116, 117, 115];
    assert(bytes@ =~= spec_grpc_status());
    bytes
}

/// The status `0` (OK) of a gRPC call.
pub open spec fn spec_zero() -> Seq<u8> {
    seq![48u8]
}

/// The status `0` (OK) of a gRPC call.
pub fn zero() -> (bytes: Vec<u8>)
    ensures
        bytes@ == spec_zero(),
{
    let bytes = vec![48u8];
    assert(bytes@ =~= spec_zero());
    bytes
}

} // verus!
