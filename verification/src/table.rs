//! One table: the rotation state machine. A `Table` owns the current epoch
//! number, the count of data rows written into that epoch, and the encoded
//! row bytes not yet handed to the shell for writing. Its abstract state
//! also tracks, per existing epoch file, how many header and data rows this
//! process has produced for it.

use crate::actions::{acts_view, ActionSpec, FsAction};
use crate::digits::dec_str;
use crate::marker::format_epoch;
use crate::paths::{epoch_file_path, log_file_path, log_path, marker_path};
use crate::row::{csv_row_of, Record};
use vstd::arithmetic::div_mod::{
    lemma_fundamental_div_mod, lemma_fundamental_div_mod_converse_div,
    lemma_fundamental_div_mod_converse_mod,
};
use vstd::prelude::*;

verus! {

/// How many header rows and data rows one epoch file holds.
#[verifier::ext_equal]
pub struct FileShape {
    pub header_rows: nat,
    pub data_rows: nat,
}

/// The abstract state of one table.
#[verifier::ext_equal]
pub struct TableSpec {
    /// The table's name.
    pub name: Seq<char>,
    /// The epoch currently written to.
    pub epoch: nat,
    /// Data rows written into the current epoch (buffered or flushed).
    pub records: nat,
    /// Encoded row bytes produced but not yet handed to the shell.
    pub buffer: Seq<u8>,
    /// The epoch this table started at in this process.
    pub start: nat,
    /// Data rows appended to this table in this process, over all epochs.
    pub total: nat,
    /// The epoch files of this table, as far as this process governs them:
    /// which epochs exist and what each holds.
    pub files: Map<nat, FileShape>,
}

/// The least epoch whose file still exists: nothing below the table's
/// starting epoch was created by this process, and nothing more than
/// `max_epochs` behind the current epoch is retained.
pub open spec fn low_epoch(start: nat, epoch: nat, max_epochs: nat) -> int {
    if start >= epoch - max_epochs + 1 {
        start as int
    } else {
        epoch - max_epochs + 1
    }
}

/// The shape an existing epoch file of `m` must have: a full former epoch
/// holds exactly `max_records` data rows under one header; the current epoch
/// holds the rows counted so far, its header appearing with the first one.
pub open spec fn shape_at(m: TableSpec, max_records: nat, e: nat) -> FileShape {
    if e == m.epoch {
        FileShape {
            header_rows: if m.records > 0 {
                1
            } else {
                0
            },
            data_rows: m.records,
        }
    } else {
        FileShape { header_rows: 1, data_rows: max_records }
    }
}

/// Well-formedness of a table under a policy: the counters agree with the
/// history, and the existing files are exactly the retention window, each
/// with its owed shape.
pub open spec fn table_wf(m: TableSpec, max_records: nat, max_epochs: nat) -> bool {
    &&& max_records >= 1
    &&& m.epoch == m.start + m.total / max_records
    &&& m.records == m.total % max_records
    &&& forall|e: nat|
        #[trigger] m.files.dom().contains(e) <==> low_epoch(m.start, m.epoch, max_epochs) <= e
            <= m.epoch
    &&& forall|e: nat|
        #[trigger] m.files.dom().contains(e) ==> m.files[e] == shape_at(m, max_records, e)
}

/// The bytes one appended record adds to the current file: its data row,
/// preceded by the header row when the file is still empty.
pub open spec fn append_chunk(m: TableSpec, names: Seq<Seq<char>>, values: Seq<Seq<char>>) -> Seq<
    u8,
> {
    if m.records == 0 {
        csv_row_of(names) + csv_row_of(values)
    } else {
        csv_row_of(values)
    }
}

/// Appending one record: one more data row in the current epoch.
pub open spec fn step_append(m: TableSpec, names: Seq<Seq<char>>, values: Seq<Seq<char>>) -> TableSpec {
    TableSpec {
        records: m.records + 1,
        total: m.total + 1,
        buffer: m.buffer + append_chunk(m, names, values),
        files: if m.files.dom().contains(m.epoch) {
            m.files.insert(m.epoch, FileShape { header_rows: 1, data_rows: m.records + 1 })
        } else {
            m.files
        },
        ..m
    }
}

/// The retention step on the files: opening epoch `e` deletes the one file
/// that falls out of the window, `e - max_epochs`, when that is not negative.
pub open spec fn retained_files(
    files: Map<nat, FileShape>,
    e: nat,
    max_epochs: nat,
) -> Map<nat, FileShape> {
    if e >= max_epochs {
        files.remove((e - max_epochs) as nat)
    } else {
        files
    }
}

/// The retention step as an action: delete the file that fell out of the
/// window, if its epoch is not negative.
pub open spec fn retention_actions(
    dir: Seq<char>,
    name: Seq<char>,
    e: nat,
    max_epochs: nat,
) -> Seq<ActionSpec> {
    if e >= max_epochs {
        seq![
            ActionSpec::DeleteIfExists { path: log_path(dir, name, (e - max_epochs) as nat) },
        ]
    } else {
        Seq::empty()
    }
}

/// Rotation: open the next epoch's file truncated, flush what the old
/// writer still buffered, persist the new epoch number, and prune the file
/// that fell out of the retention window.
pub open spec fn step_rotate(m: TableSpec, dir: Seq<char>, max_epochs: nat) -> (TableSpec, Seq<
    ActionSpec,
>) {
    let e1 = (m.epoch + 1) as nat;
    let m1 = TableSpec {
        epoch: e1,
        records: 0,
        buffer: Seq::empty(),
        files: retained_files(
            m.files.insert(e1, FileShape { header_rows: 0, data_rows: 0 }),
            e1,
            max_epochs,
        ),
        ..m
    };
    let acts = seq![
        ActionSpec::CreateTruncated { path: log_path(dir, m.name, e1) },
        ActionSpec::AppendBytes { path: log_path(dir, m.name, m.epoch), bytes: m.buffer },
        ActionSpec::WriteFile { path: marker_path(dir, m.name), content: dec_str(e1) },
    ] + retention_actions(dir, m.name, e1, max_epochs);
    (m1, acts)
}

/// Appending one record and, when the epoch just reached `max_records` data
/// rows, rotating to the next epoch.
pub open spec fn step_log_table(
    m: TableSpec,
    max_records: nat,
    dir: Seq<char>,
    max_epochs: nat,
    names: Seq<Seq<char>>,
    values: Seq<Seq<char>>,
) -> (TableSpec, Seq<ActionSpec>) {
    let m1 = step_append(m, names, values);
    if m1.records >= max_records {
        step_rotate(m1, dir, max_epochs)
    } else {
        (m1, Seq::empty())
    }
}

/// Flushing one table: hand the shell whatever row bytes are still
/// buffered for the current epoch's file. Flushing an empty buffer is a
/// no-op with no action.
pub open spec fn step_flush_table(m: TableSpec, dir: Seq<char>) -> (TableSpec, Seq<ActionSpec>) {
    if m.buffer.len() == 0 {
        (m, Seq::empty())
    } else {
        (
            TableSpec { buffer: Seq::empty(), ..m },
            seq![
                ActionSpec::AppendBytes {
                    path: log_path(dir, m.name, m.epoch),
                    bytes: m.buffer,
                },
            ],
        )
    }
}

/// One data row never overfills an epoch: in a well-formed table the
/// current count is below the rotation threshold.
pub proof fn lemma_records_below_max(m: TableSpec, max_records: nat, max_epochs: nat)
    requires
        table_wf(m, max_records, max_epochs),
    ensures
        m.records < max_records,
{
    lemma_fundamental_div_mod(m.total as int, max_records as int);
}

/// Appending (with its rotation check) preserves well-formedness.
pub proof fn lemma_step_log_table_wf(
    m: TableSpec,
    max_records: nat,
    dir: Seq<char>,
    max_epochs: nat,
    names: Seq<Seq<char>>,
    values: Seq<Seq<char>>,
)
    requires
        table_wf(m, max_records, max_epochs),
    ensures
        table_wf(
            step_log_table(m, max_records, dir, max_epochs, names, values).0,
            max_records,
            max_epochs,
        ),
{
    let k = max_records as int;
    let w = max_epochs;
    let q = m.total as int / k;
    lemma_records_below_max(m, max_records, max_epochs);
    lemma_fundamental_div_mod(m.total as int, k);
    assert(m.total + 1 == q * k + (m.records + 1));
    let m1 = step_append(m, names, values);
    if !m.files.dom().contains(m.epoch) {
        assert(low_epoch(m.start, m.epoch, w) > m.epoch);
        assert forall|e: nat| !(#[trigger] m.files.dom().contains(e)) by {
            assert(m.files.dom().contains(e) ==> low_epoch(m.start, m.epoch, w) <= e <= m.epoch);
        }
    }
    if m.records + 1 < max_records {
        lemma_fundamental_div_mod_converse_div(m.total as int + 1, k, q, m.records as int + 1);
        lemma_fundamental_div_mod_converse_mod(m.total as int + 1, k, q, m.records as int + 1);
        assert(m1.epoch == m1.start + m1.total / max_records);
        assert(m1.records == m1.total % max_records);
        assert forall|e: nat| #[trigger]
            m1.files.dom().contains(e) implies m1.files[e] == shape_at(m1, max_records, e) by {
            assert(m.files.dom().contains(e));
        }
    } else {
        assert(m1.records == max_records);
        assert(m.total + 1 == (q + 1) * k + 0) by {
            assert((q + 1) * k == q * k + k) by (nonlinear_arith);
        }
        lemma_fundamental_div_mod_converse_div(m.total as int + 1, k, q + 1, 0);
        lemma_fundamental_div_mod_converse_mod(m.total as int + 1, k, q + 1, 0);
        let r = step_rotate(m1, dir, w);
        let m2 = r.0;
        let e1 = (m.epoch + 1) as nat;
        assert(m2.epoch == m2.start + m2.total / max_records);
        assert(m2.records == m2.total % max_records);
        assert forall|e: nat| #[trigger]
            m2.files.dom().contains(e) <==> low_epoch(m2.start, m2.epoch, w) <= e <= m2.epoch by {
            assert(m.files.dom().contains(e) <==> low_epoch(m.start, m.epoch, w) <= e <= m.epoch);
        }
        assert forall|e: nat| #[trigger]
            m2.files.dom().contains(e) implies m2.files[e] == shape_at(m2, max_records, e) by {
            assert(m.files.dom().contains(e) <==> low_epoch(m.start, m.epoch, w) <= e
                <= m.epoch);
            if e != e1 {
                assert(m.files.dom().contains(e));
                assert(m.files[e] == shape_at(m, max_records, e));
            }
        }
    }
}

/// A freshly opened table (starting epoch `e`) is well formed.
pub proof fn lemma_open_table_wf(
    name: Seq<char>,
    e: nat,
    max_records: nat,
    max_epochs: nat,
)
    requires
        max_records >= 1,
    ensures
        table_wf(opened_table(name, e, max_epochs), max_records, max_epochs),
{
    let m = opened_table(name, e, max_epochs);
    assert(0nat / max_records == 0) by (nonlinear_arith)
        requires
            max_records >= 1,
    ;
    assert(0nat % max_records == 0) by (nonlinear_arith)
        requires
            max_records >= 1,
    ;
    assert(Map::<nat, FileShape>::empty().insert(e, FileShape { header_rows: 0, data_rows: 0 })
        .dom() =~= Set::<nat>::empty().insert(e));
}

/// The abstract state of a table the moment it is opened at epoch `e`: no
/// rows yet, and of its files this process knows the one it just created
/// (already pruned again if the retention window is zero).
pub open spec fn opened_table(name: Seq<char>, e: nat, max_epochs: nat) -> TableSpec {
    TableSpec {
        name: name,
        epoch: e,
        records: 0,
        buffer: Seq::empty(),
        start: e,
        total: 0,
        files: retained_files(
            Map::<nat, FileShape>::empty().insert(e, FileShape { header_rows: 0, data_rows: 0 }),
            e,
            max_epochs,
        ),
    }
}

/// The history of a table that its machine counters do not carry: ghost
/// state threaded through the executable operations.
pub struct TableHist {
    pub start: nat,
    pub total: nat,
    pub files: Map<nat, FileShape>,
}

/// One table: the current epoch's writer state and the table's history.
pub struct Table {
    pub name: String,
    pub epoch: usize,
    pub records_written: usize,
    pub buffer: Vec<u8>,
    pub hist: Ghost<TableHist>,
}

impl View for Table {
    type V = TableSpec;

    open spec fn view(&self) -> TableSpec {
        TableSpec {
            name: self.name@,
            epoch: self.epoch as nat,
            records: self.records_written as nat,
            buffer: self.buffer@,
            start: self.hist@.start,
            total: self.hist@.total,
            files: self.hist@.files,
        }
    }
}

impl Table {
    /// Opens a table at epoch `e`: the caller has just created the epoch's
    /// file truncated and runs the retention step for `e`.
    pub fn new(name: String, e: usize, max_epochs: usize) -> (t: Table)
        ensures
            t@ == opened_table(name@, e as nat, max_epochs as nat),
    {
        let t = Table {
            name,
            epoch: e,
            records_written: 0,
            buffer: Vec::new(),
            hist: Ghost(
                TableHist {
                    start: e as nat,
                    total: 0,
                    files: retained_files(
                        Map::<nat, FileShape>::empty().insert(
                            e as nat,
                            FileShape { header_rows: 0, data_rows: 0 },
                        ),
                        e as nat,
                        max_epochs as nat,
                    ),
                },
            ),
        };
        proof {
            assert(t@ =~= opened_table(t.name@, e as nat, max_epochs as nat));
        }
        t
    }

    /// Appends one record to the current epoch: encodes its values as one
    /// data row, preceded by the header row when this file has none yet.
    pub fn serialize(&mut self, record: &Record)
        requires
            old(self).records_written < usize::MAX,
        ensures
            final(self)@ == step_append(
                old(self)@,
                record.names.deep_view(),
                record.values.deep_view(),
            ),
    {
        if self.records_written == 0 {
            let mut header = record.header_row();
            self.buffer.append(&mut header);
        }
        let mut data = record.data_row();
        self.buffer.append(&mut data);
        self.records_written = self.records_written + 1;
        let ghost old_hist = self.hist@;
        let ghost old_view = old(self)@;
        self.hist = Ghost(
            TableHist {
                start: old_hist.start,
                total: old_hist.total + 1,
                files: if old_hist.files.dom().contains(old_view.epoch) {
                    old_hist.files.insert(
                        old_view.epoch,
                        FileShape { header_rows: 1, data_rows: old_view.records + 1 },
                    )
                } else {
                    old_hist.files
                },
            },
        );
        proof {
            assert(self@.buffer =~= old_view.buffer + append_chunk(
                old_view,
                record.names.deep_view(),
                record.values.deep_view(),
            ));
            assert(self@ =~= step_append(
                old_view,
                record.names.deep_view(),
                record.values.deep_view(),
            ));
        }
    }

    /// Rotates to the next epoch: emits the actions that open the new
    /// epoch's file, flush what the replaced writer still buffered, persist
    /// the new epoch number, and prune the file that left the window.
    pub fn replace(&mut self, output_dir: &str, max_epochs: usize, acts: &mut Vec<FsAction>)
        requires
            old(self).epoch < usize::MAX,
        ensures
            final(self)@ == step_rotate(old(self)@, output_dir@, max_epochs as nat).0,
            acts_view(final(acts)@) == acts_view(old(acts)@) + step_rotate(
                old(self)@,
                output_dir@,
                max_epochs as nat,
            ).1,
    {
        let ghost old_view = self@;
        let ghost old_acts = acts@;
        let e1 = self.epoch + 1;
        let new_path = log_file_path(output_dir, self.name.as_str(), e1);
        acts.push(FsAction::CreateTruncated { path: new_path });
        let old_path = log_file_path(output_dir, self.name.as_str(), self.epoch);
        let mut drained: Vec<u8> = Vec::new();
        core::mem::swap(&mut drained, &mut self.buffer);
        acts.push(FsAction::AppendBytes { path: old_path, bytes: drained });
        let marker_file = epoch_file_path(output_dir, self.name.as_str());
        acts.push(FsAction::WriteFile { path: marker_file, content: format_epoch(e1) });
        self.epoch = e1;
        self.records_written = 0;
        let ghost old_hist = self.hist@;
        self.hist = Ghost(
            TableHist {
                start: old_hist.start,
                total: old_hist.total,
                files: retained_files(
                    old_hist.files.insert(
                        e1 as nat,
                        FileShape { header_rows: 0, data_rows: 0 },
                    ),
                    e1 as nat,
                    max_epochs as nat,
                ),
            },
        );
        push_retention(output_dir, self.name.as_str(), e1, max_epochs, acts);
        proof {
            assert(self@ =~= step_rotate(old_view, output_dir@, max_epochs as nat).0);
            assert(acts_view(acts@) =~= acts_view(old_acts) + step_rotate(
                old_view,
                output_dir@,
                max_epochs as nat,
            ).1);
        }
    }

    /// Hands the shell whatever row bytes are still buffered for the
    /// current epoch's file. Flushing twice in a row is a no-op.
    pub fn flush(&mut self, output_dir: &str, acts: &mut Vec<FsAction>)
        ensures
            final(self)@ == step_flush_table(old(self)@, output_dir@).0,
            acts_view(final(acts)@) == acts_view(old(acts)@) + step_flush_table(
                old(self)@,
                output_dir@,
            ).1,
    {
        let ghost old_view = self@;
        let ghost old_acts = acts@;
        if self.buffer.len() > 0 {
            let path = log_file_path(output_dir, self.name.as_str(), self.epoch);
            let mut drained: Vec<u8> = Vec::new();
            core::mem::swap(&mut drained, &mut self.buffer);
            acts.push(FsAction::AppendBytes { path, bytes: drained });
        }
        proof {
            assert(self@ =~= step_flush_table(old_view, output_dir@).0);
            assert(acts_view(acts@) =~= acts_view(old_acts) + step_flush_table(
                old_view,
                output_dir@,
            ).1);
        }
    }

    /// The epoch currently written to.
    pub fn epoch(&self) -> (r: usize)
        ensures
            r as nat == self@.epoch,
    {
        self.epoch
    }

    /// Data rows written into the current epoch so far.
    pub fn records_written(&self) -> (r: usize)
        ensures
            r as nat == self@.records,
    {
        self.records_written
    }
}

/// Emits the retention step for a table that just opened epoch `e`: delete
/// the log file that fell out of the window, when its epoch is not negative.
pub fn push_retention(
    output_dir: &str,
    name: &str,
    e: usize,
    max_epochs: usize,
    acts: &mut Vec<FsAction>,
)
    ensures
        acts_view(final(acts)@) == acts_view(old(acts)@) + retention_actions(
            output_dir@,
            name@,
            e as nat,
            max_epochs as nat,
        ),
{
    let ghost old_acts = acts@;
    if e >= max_epochs {
        let path = log_file_path(output_dir, name, e - max_epochs);
        acts.push(FsAction::DeleteIfExists { path });
    }
    proof {
        assert(acts_view(acts@) =~= acts_view(old_acts) + retention_actions(
            output_dir@,
            name@,
            e as nat,
            max_epochs as nat,
        ));
    }
}

} // verus!
