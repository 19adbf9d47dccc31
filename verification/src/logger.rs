//! The logger: maps each table name to its `Table`, creating one on the
//! first record for that name (recovering its epoch from the marker the
//! shell read), and orchestrating appends, rotation and retention.

use crate::actions::{acts_view, ActionSpec, FsAction};
use crate::digits::{dec_str, parse_decimal};
use crate::marker::{format_epoch, parse_epoch};
use crate::paths::{epoch_file_path, log_file_path, log_path, marker_path};
use crate::row::Record;
use crate::table::{
    lemma_open_table_wf, lemma_records_below_max, lemma_step_log_table_wf, opened_table,
    push_retention, retention_actions, step_flush_table, step_log_table, table_wf, Table,
    TableSpec,
};
use vstd::prelude::*;

verus! {

/// The rotation policy: rotate after `max_records` rows in one epoch, and
/// retain a window of `max_epochs` epochs behind the current one. A policy
/// is only meaningful with `max_records >= 1`.
pub struct RotationPolicy {
    pub max_records: usize,
    pub max_epochs: usize,
}

/// The abstract state of the logger.
#[verifier::ext_equal]
pub struct LoggerSpec {
    pub output_dir: Seq<char>,
    pub max_records: nat,
    pub max_epochs: nat,
    pub tables: Seq<TableSpec>,
}

/// The index of the table of `name`, or `-1` when there is none.
pub open spec fn tbl_index(ts: Seq<TableSpec>, name: Seq<char>) -> int
    decreases ts.len(),
{
    if ts.len() == 0 {
        -1
    } else if ts[0].name == name {
        0
    } else if tbl_index(ts.drop_first(), name) == -1 {
        -1
    } else {
        tbl_index(ts.drop_first(), name) + 1
    }
}

/// The first position whose table carries `name` is what `tbl_index` finds.
pub proof fn lemma_tbl_index_found(ts: Seq<TableSpec>, name: Seq<char>, i: int)
    requires
        0 <= i < ts.len(),
        ts[i].name == name,
        forall|j: int| 0 <= j < i ==> ts[j].name != name,
    ensures
        tbl_index(ts, name) == i,
    decreases i,
{
    if i > 0 {
        lemma_tbl_index_found(ts.drop_first(), name, i - 1);
    }
}

/// Where no table carries `name`, `tbl_index` finds none.
pub proof fn lemma_tbl_index_none(ts: Seq<TableSpec>, name: Seq<char>)
    requires
        forall|j: int| 0 <= j < ts.len() ==> ts[j].name != name,
    ensures
        tbl_index(ts, name) == -1,
    decreases ts.len(),
{
    if ts.len() > 0 {
        lemma_tbl_index_none(ts.drop_first(), name);
    }
}

/// `tbl_index` yields `-1` or a position.
pub proof fn lemma_tbl_index_bounds(ts: Seq<TableSpec>, name: Seq<char>)
    ensures
        -1 <= tbl_index(ts, name) < ts.len(),
    decreases ts.len(),
{
    if ts.len() > 0 {
        lemma_tbl_index_bounds(ts.drop_first(), name);
    }
}

/// Where `tbl_index` finds none, no table carries `name`.
pub proof fn lemma_tbl_index_absent(ts: Seq<TableSpec>, name: Seq<char>)
    requires
        tbl_index(ts, name) == -1,
    ensures
        forall|j: int| 0 <= j < ts.len() ==> ts[j].name != name,
    decreases ts.len(),
{
    if ts.len() > 0 {
        assert(ts[0].name != name);
        assert(tbl_index(ts.drop_first(), name) == -1) by {
            lemma_tbl_index_bounds(ts.drop_first(), name);
            if tbl_index(ts.drop_first(), name) != -1 {
                assert(tbl_index(ts, name) == tbl_index(ts.drop_first(), name) + 1);
            }
        }
        lemma_tbl_index_absent(ts.drop_first(), name);
        assert forall|j: int| 0 <= j < ts.len() implies ts[j].name != name by {
            if j > 0 {
                assert(ts.drop_first()[j - 1].name != name);
            }
        }
    }
}

/// The epoch to start a new table at, given the marker content the shell
/// read (or `None` where no marker file exists): the persisted number is
/// the next epoch to use; an absent or corrupt marker means no prior epoch.
pub open spec fn recovered_epoch(marker: Option<Seq<char>>) -> nat {
    match marker {
        Option::Some(s) => match parse_decimal(s) {
            Option::Some(v) => v as nat,
            Option::None => 0,
        },
        Option::None => 0,
    }
}

/// Epoch recovery round-trips: a fresh process handed the marker content
/// that `step_rotate` or `step_open` persisted for epoch `e` starts that
/// table at exactly `e`, and treats the marker as intact.
pub proof fn lemma_recovery_round_trip(e: usize)
    ensures
        recovered_epoch(Option::Some(dec_str(e as nat))) == e as nat,
        !marker_corrupt(Option::Some(dec_str(e as nat))),
{
    crate::marker::lemma_epoch_round_trip(e);
}

/// A marker file that exists but does not read back as an epoch number.
pub open spec fn marker_corrupt(marker: Option<Seq<char>>) -> bool {
    match marker {
        Option::Some(s) => parse_decimal(s) is None,
        Option::None => false,
    }
}

/// Opening a table never seen in this process: delete a corrupt marker,
/// create the recovered epoch's file truncated, persist the epoch, and run
/// the retention step.
pub open spec fn step_open(
    dir: Seq<char>,
    name: Seq<char>,
    marker: Option<Seq<char>>,
    max_epochs: nat,
) -> (TableSpec, Seq<ActionSpec>) {
    let e = recovered_epoch(marker);
    let cleanup: Seq<ActionSpec> = if marker_corrupt(marker) {
        seq![ActionSpec::DeleteIfExists { path: marker_path(dir, name) }]
    } else {
        Seq::empty()
    };
    let acts = cleanup + seq![
        ActionSpec::CreateTruncated { path: log_path(dir, name, e) },
        ActionSpec::WriteFile { path: marker_path(dir, name), content: dec_str(e) },
    ] + retention_actions(dir, name, e, max_epochs);
    (opened_table(name, e, max_epochs), acts)
}

/// Logging one record: append it to its table, creating the table first
/// when this is its first record in this process, and rotate when the epoch
/// is full.
pub open spec fn step_log(
    l: LoggerSpec,
    name: Seq<char>,
    names: Seq<Seq<char>>,
    values: Seq<Seq<char>>,
    marker: Option<Seq<char>>,
) -> (LoggerSpec, Seq<ActionSpec>) {
    let r = tbl_index(l.tables, name);
    if r >= 0 {
        let s = step_log_table(l.tables[r], l.max_records, l.output_dir, l.max_epochs, names, values);
        (LoggerSpec { tables: l.tables.update(r, s.0), ..l }, s.1)
    } else {
        let o = step_open(l.output_dir, name, marker, l.max_epochs);
        let s = step_log_table(o.0, l.max_records, l.output_dir, l.max_epochs, names, values);
        (LoggerSpec { tables: l.tables.push(s.0), ..l }, o.1 + s.1)
    }
}

/// The flush actions of the tables before position `i`, in table order.
pub open spec fn flush_acts_upto(ts: Seq<TableSpec>, dir: Seq<char>, i: int) -> Seq<ActionSpec>
    decreases i,
{
    if i <= 0 {
        Seq::empty()
    } else {
        flush_acts_upto(ts, dir, i - 1) + step_flush_table(ts[i - 1], dir).1
    }
}

/// Flushing the logger: every table hands over its buffered rows; tables
/// whose buffer is empty contribute nothing.
pub open spec fn step_flush(l: LoggerSpec) -> (LoggerSpec, Seq<ActionSpec>) {
    (
        LoggerSpec {
            tables: Seq::new(l.tables.len(), |j: int| step_flush_table(l.tables[j], l.output_dir).0),
            ..l
        },
        flush_acts_upto(l.tables, l.output_dir, l.tables.len() as int),
    )
}

/// The logger: one `Table` per table name seen, the output directory, and
/// the rotation policy.
pub struct CsvLogger {
    pub output_dir: String,
    pub tables: Vec<Table>,
    pub rotation: RotationPolicy,
}

impl View for CsvLogger {
    type V = LoggerSpec;

    open spec fn view(&self) -> LoggerSpec {
        LoggerSpec {
            output_dir: self.output_dir@,
            max_records: self.rotation.max_records as nat,
            max_epochs: self.rotation.max_epochs as nat,
            tables: self.tables@.map_values(|t: Table| t@),
        }
    }
}

impl CsvLogger {
    /// Well-formedness: a meaningful policy, at most one table per name,
    /// and every table well formed under the policy.
    pub open spec fn wf(self) -> bool {
        &&& self.rotation.max_records >= 1
        &&& forall|i: int, j: int|
            0 <= i < j < self@.tables.len() ==> self@.tables[i].name != self@.tables[j].name
        &&& forall|i: int|
            0 <= i < self@.tables.len() ==> table_wf(
                #[trigger] self@.tables[i],
                self.rotation.max_records as nat,
                self.rotation.max_epochs as nat,
            )
    }

    /// Room for one more epoch number: the table this record goes to (or
    /// the epoch recovered for it) has not reached the machine limit.
    pub open spec fn log_headroom(self, name: Seq<char>, marker: Option<Seq<char>>) -> bool {
        let r = tbl_index(self@.tables, name);
        if r >= 0 {
            self@.tables[r].epoch < usize::MAX
        } else {
            recovered_epoch(marker) < usize::MAX
        }
    }

    /// A fresh logger: no tables yet.
    pub fn new(output_dir: String, rotation: RotationPolicy) -> (l: CsvLogger)
        requires
            rotation.max_records >= 1,
        ensures
            l.wf(),
            l@.output_dir == output_dir@,
            l@.max_records == rotation.max_records as nat,
            l@.max_epochs == rotation.max_epochs as nat,
            l@.tables == Seq::<TableSpec>::empty(),
    {
        let l = CsvLogger { output_dir, tables: Vec::new(), rotation };
        proof {
            assert(l@.tables =~= Seq::<TableSpec>::empty());
        }
        l
    }

    /// The position of the table of `name`, if one exists yet.
    fn find_index(&self, name: &String) -> (r: Option<usize>)
        ensures
            match r {
                Option::Some(i) => i < self.tables@.len() && tbl_index(self@.tables, name@)
                    == i as int,
                Option::None => tbl_index(self@.tables, name@) == -1,
            },
    {
        let n = self.tables.len();
        let mut i: usize = 0;
        while i < n
            invariant
                0 <= i <= n == self.tables@.len(),
                forall|j: int| 0 <= j < i ==> self@.tables[j].name != name@,
            decreases n - i,
        {
            if self.tables[i].name == *name {
                proof {
                    lemma_tbl_index_found(self@.tables, name@, i as int);
                }
                return Some(i);
            }
            i = i + 1;
        }
        proof {
            lemma_tbl_index_none(self@.tables, name@);
        }
        None
    }

    /// Whether a table of this name exists in this process yet. Where it
    /// does not, the next `log` for it needs the marker file's content.
    pub fn has_table(&self, name: &String) -> (r: bool)
        ensures
            r == (tbl_index(self@.tables, name@) >= 0),
    {
        match self.find_index(name) {
            Option::Some(_) => true,
            Option::None => false,
        }
    }

    /// Logs one record. `marker` is the content of the record's table's
    /// marker file (or `None` where that file does not exist); it is only
    /// consulted when the table has not been seen in this process. Returns
    /// the filesystem actions the shell must carry out, in order.
    pub fn log(&mut self, record: &Record, marker: Option<&str>) -> (acts: Vec<FsAction>)
        requires
            old(self).wf(),
            record.wf(),
            old(self).log_headroom(record.table@, marker_view(marker)),
        ensures
            final(self).wf(),
            final(self)@ == step_log(
                old(self)@,
                record.table@,
                record.names.deep_view(),
                record.values.deep_view(),
                marker_view(marker),
            ).0,
            acts_view(acts@) == step_log(
                old(self)@,
                record.table@,
                record.names.deep_view(),
                record.values.deep_view(),
                marker_view(marker),
            ).1,
    {
        let ghost l0 = self@;
        let ghost k = self.rotation.max_records as nat;
        let ghost w = self.rotation.max_epochs as nat;
        let ghost names = record.names.deep_view();
        let ghost values = record.values.deep_view();
        let mut acts: Vec<FsAction> = Vec::new();
        match self.find_index(&record.table) {
            Option::Some(i) => {
                let ghost r = i as int;
                let mut t = self.tables.remove(i);
                proof {
                    assert(table_wf(l0.tables[r], k, w));
                    lemma_records_below_max(t@, k, w);
                }
                t.serialize(record);
                if self.rotation.max_records <= t.records_written() {
                    t.replace(self.output_dir.as_str(), self.rotation.max_epochs, &mut acts);
                }
                proof {
                    lemma_step_log_table_wf(l0.tables[r], k, l0.output_dir, w, names, values);
                    assert(t@ == step_log_table(l0.tables[r], k, l0.output_dir, w, names, values).0);
                }
                self.tables.insert(i, t);
                proof {
                    assert(self@.tables =~= l0.tables.update(
                        r,
                        step_log_table(l0.tables[r], k, l0.output_dir, w, names, values).0,
                    ));
                    assert(self@ =~= step_log(l0, record.table@, names, values, marker_view(marker)).0);
                    assert(acts_view(acts@) =~= step_log(
                        l0,
                        record.table@,
                        names,
                        values,
                        marker_view(marker),
                    ).1);
                    assert(t@.name == l0.tables[r].name);
                    assert forall|a: int, b: int|
                        0 <= a < b < self@.tables.len() implies self@.tables[a].name
                        != self@.tables[b].name by {
                        assert(l0.tables[a].name != l0.tables[b].name);
                    }
                }
                acts
            },
            Option::None => {
                let e = match marker {
                    Option::Some(content) => match parse_epoch(content) {
                        Option::Some(v) => v,
                        Option::None => {
                            let bad = epoch_file_path(
                                self.output_dir.as_str(),
                                record.table.as_str(),
                            );
                            acts.push(FsAction::DeleteIfExists { path: bad });
                            0
                        },
                    },
                    Option::None => 0,
                };
                let created = log_file_path(self.output_dir.as_str(), record.table.as_str(), e);
                acts.push(FsAction::CreateTruncated { path: created });
                let marker_file = epoch_file_path(self.output_dir.as_str(), record.table.as_str());
                acts.push(FsAction::WriteFile { path: marker_file, content: format_epoch(e) });
                push_retention(
                    self.output_dir.as_str(),
                    record.table.as_str(),
                    e,
                    self.rotation.max_epochs,
                    &mut acts,
                );
                let ghost o = step_open(l0.output_dir, record.table@, marker_view(marker), w);
                proof {
                    assert(acts_view(acts@) =~= o.1);
                    lemma_open_table_wf(record.table@, e as nat, k, w);
                }
                let mut t = Table::new(record.table.clone(), e, self.rotation.max_epochs);
                proof {
                    assert(t@ == o.0);
                    lemma_records_below_max(t@, k, w);
                }
                t.serialize(record);
                if self.rotation.max_records <= t.records_written() {
                    t.replace(self.output_dir.as_str(), self.rotation.max_epochs, &mut acts);
                }
                proof {
                    lemma_step_log_table_wf(o.0, k, l0.output_dir, w, names, values);
                    assert(t@ == step_log_table(o.0, k, l0.output_dir, w, names, values).0);
                }
                self.tables.push(t);
                proof {
                    assert(self@.tables =~= l0.tables.push(
                        step_log_table(o.0, k, l0.output_dir, w, names, values).0,
                    ));
                    assert(self@ =~= step_log(l0, record.table@, names, values, marker_view(marker)).0);
                    assert(acts_view(acts@) =~= step_log(
                        l0,
                        record.table@,
                        names,
                        values,
                        marker_view(marker),
                    ).1);
                    lemma_tbl_index_absent(l0.tables, record.table@);
                    assert(t@.name == record.table@);
                    assert forall|a: int, b: int|
                        0 <= a < b < self@.tables.len() implies self@.tables[a].name
                        != self@.tables[b].name by {
                        if b < l0.tables.len() {
                            assert(l0.tables[a].name != l0.tables[b].name);
                        } else {
                            assert(l0.tables[a].name != record.table@);
                        }
                    }
                }
                acts
            },
        }
    }

    /// Flushes every table: hands the shell all buffered row bytes, table
    /// by table. A table whose buffer is empty contributes no action, so a
    /// second flush with no intervening `log` returns no actions at all.
    pub fn flush(&mut self) -> (acts: Vec<FsAction>)
        requires
            old(self).wf(),
        ensures
            final(self).wf(),
            final(self)@ == step_flush(old(self)@).0,
            acts_view(acts@) == step_flush(old(self)@).1,
    {
        let ghost l0 = self@;
        let mut acts: Vec<FsAction> = Vec::new();
        let n = self.tables.len();
        let mut i: usize = 0;
        while i < n
            invariant
                0 <= i <= n == self.tables@.len(),
                l0.tables.len() == n,
                l0 == old(self)@,
                self.output_dir@ == l0.output_dir,
                self.rotation == old(self).rotation,
                forall|j: int| i <= j < n ==> self.tables@[j] == old(self).tables@[j],
                forall|j: int|
                    0 <= j < i ==> #[trigger] self.tables@[j]@ == step_flush_table(
                        l0.tables[j],
                        l0.output_dir,
                    ).0,
                acts_view(acts@) == flush_acts_upto(l0.tables, l0.output_dir, i as int),
            decreases n - i,
        {
            let ghost tables_at = self.tables@;
            let ghost acts_at = acts@;
            let mut t = self.tables.remove(i);
            proof {
                assert(t == old(self).tables@[i as int]);
                assert(t@ == l0.tables[i as int]);
            }
            t.flush(self.output_dir.as_str(), &mut acts);
            self.tables.insert(i, t);
            proof {
                assert(self.tables@ =~= tables_at.update(i as int, t));
                assert(acts_view(acts@) =~= acts_view(acts_at) + step_flush_table(
                    l0.tables[i as int],
                    l0.output_dir,
                ).1);
            }
            i = i + 1;
        }
        proof {
            assert(self@.tables =~= step_flush(l0).0.tables);
            assert(self@ =~= step_flush(l0).0);
            assert forall|j: int| 0 <= j < self@.tables.len() implies table_wf(
                #[trigger] self@.tables[j],
                self.rotation.max_records as nat,
                self.rotation.max_epochs as nat,
            ) && self@.tables[j].name == l0.tables[j].name by {
                let m = l0.tables[j];
                assert(table_wf(m, self.rotation.max_records as nat, self.rotation.max_epochs as nat));
                let m2 = step_flush_table(m, l0.output_dir).0;
                assert(m2.name == m.name && m2.epoch == m.epoch && m2.records == m.records
                    && m2.start == m.start && m2.total == m.total && m2.files == m.files);
            }
        }
        acts
    }
}

/// The view of an optional marker content handed in by the shell.
pub open spec fn marker_view(marker: Option<&str>) -> Option<Seq<char>> {
    match marker {
        Option::Some(s) => Option::Some(s@),
        Option::None => Option::None,
    }
}

} // verus!
