use vstd::prelude::*;

verus! {

/// The failure kinds of the codec.
///
/// `UnexpectedEnd`: fewer bytes were available than the frame declared.
/// `Varint`: a variable-length integer's continuation bit never terminated
/// within the maximum byte width.
/// `Compression`: the compressor or decompressor failed, or the compressed
/// block was corrupt or truncated.
/// `Protocol`: a declared length was inconsistent with the bytes required
/// (for example a frame-length prefix smaller than the minimum prefix size).
#[derive(Clone, Copy, Debug, PartialEq, Eq, Structural)]
pub enum CodecError {
    UnexpectedEnd,
    Varint,
    Compression,
    Protocol,
}

} // verus!
