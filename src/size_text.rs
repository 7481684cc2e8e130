use vstd::prelude::*;

verus! {

/// The text that humansize writes for a byte count with SI (decimal) units.
pub uninterp spec fn decimal_size_text(bytes: u64) -> Seq<char>;

/// Relies on humansize::format_size with the DECIMAL options: the byte count
/// written with SI units ("1 MB"); the text depends on the count alone.
#[verifier::external_body]
pub(crate) fn format_decimal_size(bytes: u64) -> (r: String)
    ensures
        r@ == decimal_size_text(bytes),
{
    humansize::format_size(bytes, humansize::DECIMAL)
}

} // verus!
