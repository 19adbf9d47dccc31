//! Path resolution: the single source of truth for where a table's log
//! files and its epoch marker live, as strings relative to the output
//! directory. Pure functions with no side effects.

use crate::digits::{dec_str, push_decimal};
use vstd::prelude::*;

verus! {

/// The path of the log file of `epoch` for a table:
/// `output_dir/table_name/<epoch>.csv`.
pub open spec fn log_path(output_dir: Seq<char>, table_name: Seq<char>, epoch: nat) -> Seq<char> {
    output_dir + "/"@ + table_name + "/"@ + dec_str(epoch) + ".csv"@
}

/// The path of the epoch marker file of a table: `output_dir/table_name/epoch`.
pub open spec fn marker_path(output_dir: Seq<char>, table_name: Seq<char>) -> Seq<char> {
    output_dir + "/"@ + table_name + "/epoch"@
}

/// Resolves the log file of `epoch` for a table.
pub fn log_file_path(output_dir: &str, table_name: &str, epoch: usize) -> (r: String)
    ensures
        r@ == log_path(output_dir@, table_name@, epoch as nat),
{
    let mut out = output_dir.to_owned();
    out.append("/");
    out.append(table_name);
    out.append("/");
    push_decimal(epoch, &mut out);
    out.append(".csv");
    proof {
        assert(out@ =~= log_path(output_dir@, table_name@, epoch as nat));
    }
    out
}

/// Resolves the epoch marker file for a table.
pub fn epoch_file_path(output_dir: &str, table_name: &str) -> (r: String)
    ensures
        r@ == marker_path(output_dir@, table_name@),
{
    let mut out = output_dir.to_owned();
    out.append("/");
    out.append(table_name);
    out.append("/epoch");
    proof {
        assert(out@ =~= marker_path(output_dir@, table_name@));
    }
    out
}

} // verus!
