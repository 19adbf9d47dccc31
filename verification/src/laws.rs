//! The laws of the logger, each proved from the state the operations
//! maintain: how appended rows distribute over epoch files, what retention
//! keeps and deletes, that every file gets its header exactly once, and
//! that flushing twice changes nothing.

use crate::actions::ActionSpec;
use crate::logger::{flush_acts_upto, step_flush, LoggerSpec};
use crate::table::{low_epoch, step_flush_table, table_wf, TableSpec};
use vstd::prelude::*;

verus! {

/// Row distribution: after `total` appends to a table begun fresh at epoch
/// 0, the table has filled `total / max_records` former epochs, each
/// holding exactly `max_records` data rows under one header; the current
/// epoch holds the remaining `total % max_records` rows. While no epoch
/// has fallen out of the retention window yet, the files present are
/// exactly epochs `0 ..= total / max_records`.
pub proof fn lemma_row_distribution(m: TableSpec, max_records: nat, max_epochs: nat)
    requires
        table_wf(m, max_records, max_epochs),
        m.start == 0,
    ensures
        m.epoch == m.total / max_records,
        forall|e: nat|
            #[trigger] m.files.dom().contains(e) && e < m.epoch ==> m.files[e].data_rows
                == max_records && m.files[e].header_rows == 1,
        m.files.dom().contains(m.epoch) ==> m.files[m.epoch].data_rows == m.total % max_records,
        m.epoch < max_epochs ==> forall|e: nat|
            #[trigger] m.files.dom().contains(e) <==> e <= m.total / max_records,
{
    assert forall|e: nat|
        #[trigger] m.files.dom().contains(e) && e < m.epoch implies m.files[e].data_rows
        == max_records && m.files[e].header_rows == 1 by {
        assert(m.files.dom().contains(e) ==> m.files[e] == crate::table::shape_at(
            m,
            max_records,
            e,
        ));
    }
    if m.epoch < max_epochs {
        assert forall|e: nat|
            #[trigger] m.files.dom().contains(e) <==> e <= m.total / max_records by {
            assert(m.files.dom().contains(e) <==> low_epoch(m.start, m.epoch, max_epochs) <= e
                <= m.epoch);
        }
    }
}

/// Retention: a table never has a file at epoch `epoch - max_epochs` or
/// earlier; and a table begun fresh at epoch 0 has a file at every epoch of
/// the window `epoch - max_epochs + 1 ..= epoch` (clipped below at 0).
pub proof fn lemma_retention(m: TableSpec, max_records: nat, max_epochs: nat)
    requires
        table_wf(m, max_records, max_epochs),
    ensures
        forall|e: nat| e <= m.epoch - max_epochs ==> !(#[trigger] m.files.dom().contains(e)),
        m.start == 0 ==> forall|e: nat|
            m.epoch - max_epochs < e <= m.epoch ==> #[trigger] m.files.dom().contains(e),
{
    assert forall|e: nat| e <= m.epoch - max_epochs implies !(#[trigger] m.files.dom().contains(
        e,
    )) by {
        assert(m.files.dom().contains(e) <==> low_epoch(m.start, m.epoch, max_epochs) <= e
            <= m.epoch);
    }
    if m.start == 0 {
        assert forall|e: nat|
            m.epoch - max_epochs < e <= m.epoch implies #[trigger] m.files.dom().contains(e) by {
            assert(m.files.dom().contains(e) <==> low_epoch(m.start, m.epoch, max_epochs) <= e
                <= m.epoch);
        }
    }
}

/// Header-once: every existing file of a well-formed table holds exactly
/// one header row as soon as it holds any data row, and none before.
pub proof fn lemma_header_once(m: TableSpec, max_records: nat, max_epochs: nat)
    requires
        table_wf(m, max_records, max_epochs),
    ensures
        forall|e: nat|
            #[trigger] m.files.dom().contains(e) ==> m.files[e].header_rows == (
            if m.files[e].data_rows > 0 {
                1nat
            } else {
                0nat
            }),
{
    assert forall|e: nat| #[trigger] m.files.dom().contains(e) implies m.files[e].header_rows == (
    if m.files[e].data_rows > 0 {
        1nat
    } else {
        0nat
    }) by {
        assert(m.files[e] == crate::table::shape_at(m, max_records, e));
    }
}

/// No table holds buffered bytes after a flush.
proof fn lemma_flush_acts_empty(ts: Seq<TableSpec>, dir: Seq<char>, i: int)
    requires
        forall|j: int| 0 <= j < ts.len() ==> ts[j].buffer.len() == 0,
        i <= ts.len(),
    ensures
        flush_acts_upto(ts, dir, i) == Seq::<ActionSpec>::empty(),
    decreases i,
{
    if i > 0 {
        lemma_flush_acts_empty(ts, dir, i - 1);
        assert(flush_acts_upto(ts, dir, i) =~= Seq::<ActionSpec>::empty());
    }
}

/// Flush is idempotent: flushing a logger that was just flushed, with no
/// `log` in between, changes nothing and emits no filesystem action.
pub proof fn lemma_flush_idempotent(l: LoggerSpec)
    ensures
        step_flush(step_flush(l).0).0 == step_flush(l).0,
        step_flush(step_flush(l).0).1 == Seq::<ActionSpec>::empty(),
{
    let l1 = step_flush(l).0;
    assert forall|j: int| 0 <= j < l1.tables.len() implies l1.tables[j].buffer.len() == 0 by {
        assert(l1.tables[j] == step_flush_table(l.tables[j], l.output_dir).0);
    }
    assert forall|j: int|
        0 <= j < l1.tables.len() implies #[trigger] step_flush_table(l1.tables[j], l1.output_dir).0
        == l1.tables[j] by {
        assert(step_flush_table(l1.tables[j], l1.output_dir).0 =~= l1.tables[j]);
    }
    assert(step_flush(l1).0.tables =~= l1.tables);
    assert(step_flush(l1).0 =~= l1);
    lemma_flush_acts_empty(l1.tables, l1.output_dir, l1.tables.len() as int);
}

} // verus!
