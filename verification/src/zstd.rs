//! The trusted boundary to the Zstandard codec.
//!
//! Compression and decompression are the codec's work. Decompression is
//! a function of the input bytes alone, so its result has a name,
//! [`zstd_inflate`]; what the wrappers promise about it is what the
//! codec documents: compressing and then decompressing gives the input
//! back, decompression succeeds when the output room suffices, and
//! raw-block frames decode to their payload verbatim.

use vstd::prelude::*;

verus! {

/// The Zstd compression context.
#[verifier::external_type_specification]
#[verifier::external_body]
pub struct ExCCtx<'a>(zstd_safe::CCtx<'a>);

/// A Zstd compression parameter.
#[verifier::external_type_specification]
#[verifier::external_body]
pub struct ExCParameter(zstd_safe::CParameter);

/// What Zstd decompression returns for the given frame bytes: `None`
/// where they do not decompress.
pub uninterp spec fn zstd_inflate(bytes: Seq<u8>) -> Option<Seq<u8>>;

/// Relies on `zstd_safe::CCtx::try_create` and `init`: a fresh
/// compression context at the default level.
#[verifier::external_body]
pub(crate) fn new_cctx() -> (r: Option<zstd_safe::CCtx<'static>>)
{
    let mut c = zstd_safe::CCtx::try_create()?;
    if c.init(0).is_err() {
        return None;
    }
    Some(c)
}

/// Relies on `zstd_safe::CCtx::set_parameter`; the message on refusal
/// comes from `zstd_safe::get_error_name`.
#[verifier::external_body]
pub(crate) fn cctx_set_parameter(
    cctx: &mut zstd_safe::CCtx<'static>,
    param: zstd_safe::CParameter,
) -> (r: Result<(), String>)
{
    match cctx.set_parameter(param) {
        Ok(_) => Ok(()),
        Err(code) => Err(zstd_safe::get_error_name(code).to_owned()),
    }
}

/// Relies on `zstd_safe::CCtx::reset` with `SessionOnly`: ends any
/// frame in progress so the next compression starts fresh.
#[verifier::external_body]
pub(crate) fn cctx_reset_session(cctx: &mut zstd_safe::CCtx<'static>)
{
    let _ = cctx.reset(zstd_safe::ResetDirective::SessionOnly);
}

/// Relies on `zstd_safe::CCtx::compress2` (sized via `compress_bound`):
/// the output is one complete Zstd frame that decompresses back to the
/// input, and it begins with the Zstd frame magic.
#[verifier::external_body]
pub(crate) fn cctx_compress(cctx: &mut zstd_safe::CCtx<'static>, content: &[u8]) -> (r: Result<
    Vec<u8>,
    String,
>)
    ensures
        r matches Ok(v) ==> zstd_inflate(v@) == Some(content@) && v@.len() >= 4 && v@[0] == 0x28
            && v@[1] == 0xB5 && v@[2] == 0x2F && v@[3] == 0xFD,
{
    let mut buf: Vec<u8> = Vec::with_capacity(zstd_safe::compress_bound(content.len()));
    match cctx.compress2(&mut buf, content) {
        Ok(_) => Ok(buf),
        Err(code) => Err(zstd_safe::get_error_name(code).to_owned()),
    }
}

/// Relies on `zstd_safe::DCtx::decompress`: a function of the input
/// bytes alone, writing at most `capacity` bytes and succeeding whenever
/// that room suffices; raw-block frames decode to their payload
/// verbatim.
#[verifier::external_body]
pub(crate) fn zstd_decompress(bytes: &[u8], capacity: usize) -> (r: Result<Vec<u8>, String>)
    ensures
        match r {
            Ok(v) => zstd_inflate(bytes@) == Some(v@) && v@.len() <= capacity && (forall|c: Seq<u8>|
                bytes@ == crate::framing::raw_frame(c) ==> v@ == c),
            Err(_) => (forall|s: Seq<u8>| zstd_inflate(bytes@) == Some(s) ==> s.len() > capacity)
                && (forall|c: Seq<u8>|
                bytes@ == crate::framing::raw_frame(c) ==> c.len() > capacity),
        },
{
    let mut dctx = match zstd_safe::DCtx::try_create() {
        Some(d) => d,
        None => {
            return Err("zstd initialization error".to_owned())
        },
    };
    let mut buf: Vec<u8> = Vec::with_capacity(capacity);
    match dctx.decompress(&mut buf, bytes) {
        Ok(_) => Ok(buf),
        Err(code) => Err(zstd_safe::get_error_name(code).to_owned()),
    }
}

} // verus!
