//! The epoch marker codec: the text persisted in a table's marker file and
//! the recovery of an epoch number from it. A marker that does not read back
//! as a plain decimal number is treated as corrupt, never as an error.

use crate::digits::{dec_str, lemma_dec_str_val, parse_decimal, parse_usize, usize_to_string};
use vstd::prelude::*;

verus! {

/// The text persisted for `epoch`: its decimal notation.
pub fn format_epoch(epoch: usize) -> (r: String)
    ensures
        r@ == dec_str(epoch as nat),
{
    usize_to_string(epoch)
}

/// Reads a marker file's content back as an epoch number. `None` exactly
/// when the content is not the decimal notation of a number that fits in
/// `usize`: such a marker is corrupt and its file is to be deleted.
pub fn parse_epoch(content: &str) -> (r: Option<usize>)
    ensures
        r == parse_decimal(content@),
{
    parse_usize(content)
}

/// Epoch recovery round-trips: the persisted text of `epoch` always reads
/// back as exactly `epoch`.
pub proof fn lemma_epoch_round_trip(epoch: usize)
    ensures
        parse_decimal(dec_str(epoch as nat)) == Some(epoch),
{
    lemma_dec_str_val(epoch as nat);
}

} // verus!
