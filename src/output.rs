//! The request as the command line gives it, and the bytes handed to the
//! single final write.

use vstd::prelude::*;
use vstd::utf8::encode_utf8;

verus! {

/// What a run is asked to do.
pub struct Args {
    /// The directory to search.
    pub dir: String,
    /// The extension that selects files, without its dot.
    pub ext: String,
    /// The output file or directory, if one is named.
    pub output: Option<String>,
    /// The header written before each file; `{filename}` stands for its name.
    pub separator: String,
    /// File names to leave out.
    pub exclude: Vec<String>,
}

/// Appends the bytes of the combined text to `sink`, which is then written
/// out at once. Returns whether there is anything to write: an empty text
/// means that no file matched, and no output file is made.
pub fn write_output(sink: &mut Vec<u8>, content: String) -> (r: bool)
    ensures
        r == (content@.len() > 0),
        final(sink)@ == old(sink)@ + encode_utf8(content@),
{
    let bytes = content.as_str().as_bytes();
    let ghost start = sink@;
    let mut i: usize = 0;
    while i < bytes.len()
        invariant
            i <= bytes@.len(),
            bytes@ == encode_utf8(content@),
            sink@ == start + bytes@.subrange(0, i as int),
        decreases bytes@.len() - i,
    {
        sink.push(bytes[i]);
        i = i + 1;
        assert(sink@ =~= start + bytes@.subrange(0, i as int));
    }
    assert(bytes@.subrange(0, i as int) =~= bytes@);
    !content.as_str().is_empty()
}

} // verus!
