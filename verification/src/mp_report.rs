//! Reading the per-path experiment results and grouping them by controller
//! and path.  The quality column is carried as text; averaging it is left to
//! the caller, in the order the group's rows appear.
use vstd::prelude::*;
use vstd::string::StringExecFns;

use crate::multipath::{average_rtt, MultipathStats};
use crate::text::{
    csv_fields, csv_row, csv_row_line, decimal, decimal_string,
    lemma_csv_row_then_plain_splits_back, lemma_decimal_is_plain, lemma_decimal_reads_back,
    lemma_text_less_irreflexive, lemma_text_less_total, lemma_text_less_transitive, parse_u128,
    parse_u64, push_char, push_str, split_csv_line, splits_plain, str_equals, string_views,
    text_less, text_lt, trim, trimmed, u128_value, u64_value,
};

verus! {

/// One data row of the per-path results file.
pub struct MultipathRecord {
    pub controller: String,
    pub path_id: u8,
    pub path_name: String,
    pub acks: u64,
    pub losses: u64,
    pub retransmits: u64,
    pub rtt_samples: u64,
    pub rtt_avg_us: u128,
    pub quality: String,
}

pub struct RecordModel {
    pub controller: Seq<char>,
    pub path_id: u8,
    pub path_name: Seq<char>,
    pub acks: u64,
    pub losses: u64,
    pub retransmits: u64,
    pub rtt_samples: u64,
    pub rtt_avg_us: u128,
    pub quality: Seq<char>,
}

impl MultipathRecord {
    pub open spec fn model(&self) -> RecordModel {
        RecordModel {
            controller: self.controller@,
            path_id: self.path_id,
            path_name: self.path_name@,
            acks: self.acks,
            losses: self.losses,
            retransmits: self.retransmits,
            rtt_samples: self.rtt_samples,
            rtt_avg_us: self.rtt_avg_us,
            quality: self.quality@,
        }
    }
}

pub open spec fn models(rs: Seq<MultipathRecord>) -> Seq<RecordModel> {
    rs.map_values(|r: MultipathRecord| r.model())
}

/// A numeric column: its trimmed text read as a `u64`, 0 when it is not one.
pub open spec fn column_u64(f: Seq<char>) -> u64 {
    match u64_value(trimmed(f)) {
        Some(v) => v,
        None => 0,
    }
}

/// A numeric column read as a `u128`, 0 when it is not one.
pub open spec fn column_u128(f: Seq<char>) -> u128 {
    match u128_value(trimmed(f)) {
        Some(v) => v,
        None => 0,
    }
}

/// The row a line holds: columns 2 to 10 of at least eleven (controller,
/// path id cut to 8 bits, path name, acks, losses, retransmissions, round trip
/// samples, average round trip, quality).
pub open spec fn row_of(line: Seq<char>) -> Option<RecordModel> {
    let cols = csv_fields(line);
    if cols.len() < 11 {
        None
    } else {
        Some(
            RecordModel {
                controller: trimmed(cols[2]),
                path_id: (column_u64(cols[3]) % 256) as u8,
                path_name: trimmed(cols[4]),
                acks: column_u64(cols[5]),
                losses: column_u64(cols[6]),
                retransmits: column_u64(cols[7]),
                rtt_samples: column_u64(cols[8]),
                rtt_avg_us: column_u128(cols[9]),
                quality: cols[10],
            },
        )
    }
}

/// Reads one line of the per-path results file; `None` for fewer than
/// eleven columns.
pub fn parse_multipath_row(line: &str) -> (r: Option<MultipathRecord>)
    ensures
        match r {
            Some(rec) => row_of(line@) == Some(rec.model()),
            None => row_of(line@) is None,
        },
{
    let cols = split_csv_line(line);
    if cols.len() < 11 {
        return None;
    }
    let ghost c = string_views(cols@);
    assert(c[3] == cols@[3]@);
    let path_id = (parse_u64(cols[3].as_str()) % 256) as u8;
    Some(
        MultipathRecord {
            controller: String::from_str(trim(cols[2].as_str())),
            path_id,
            path_name: String::from_str(trim(cols[4].as_str())),
            acks: parse_u64(cols[5].as_str()),
            losses: parse_u64(cols[6].as_str()),
            retransmits: parse_u64(cols[7].as_str()),
            rtt_samples: parse_u64(cols[8].as_str()),
            rtt_avg_us: parse_u128(cols[9].as_str()),
            quality: cols[10].clone(),
        },
    )
}

/// The rows of a results file: every line after the header that is not
/// blank and has at least eleven columns.
pub open spec fn rows_of(lines: Seq<Seq<char>>) -> Seq<RecordModel>
    decreases lines.len(),
{
    if lines.len() <= 1 {
        seq![]
    } else {
        let before = rows_of(lines.drop_last());
        let line = lines.last();
        if trimmed(line).len() == 0 {
            before
        } else {
            match row_of(line) {
                Some(r) => before.push(r),
                None => before,
            }
        }
    }
}

/// Reads the rows of a results file given as its lines.
pub fn parse_multipath_rows(lines: &Vec<String>) -> (rows: Vec<MultipathRecord>)
    ensures
        models(rows@) == rows_of(string_views(lines@)),
{
    let mut rows: Vec<MultipathRecord> = Vec::new();
    let mut i: usize = 1;
    if lines.len() == 0 {
        assert(models(rows@) =~= rows_of(string_views(lines@)));
        return rows;
    }
    assert(string_views(lines@).take(1).len() == 1);
    assert(models(rows@) =~= rows_of(string_views(lines@).take(1)));
    while i < lines.len()
        invariant
            1 <= i <= lines@.len(),
            models(rows@) == rows_of(string_views(lines@).take(i as int)),
        decreases lines@.len() - i,
    {
        let ghost before = models(rows@);
        let ghost upto = string_views(lines@).take(i + 1);
        assert(upto.drop_last() =~= string_views(lines@).take(i as int));
        assert(upto.last() == lines@[i as int]@);
        let line = lines[i].as_str();
        if trim(line).unicode_len() != 0 {
            match parse_multipath_row(line) {
                Some(r) => {
                    rows.push(r);
                    assert(models(rows@) =~= before.push(r.model()));
                },
                None => {},
            }
        }
        i = i + 1;
    }
    assert(string_views(lines@).take(lines@.len() as int) =~= string_views(lines@));
    rows
}

/// The grouping key of a row.
pub struct GroupKey {
    pub controller: Seq<char>,
    pub path_id: u8,
    pub path_name: Seq<char>,
}

pub open spec fn key_of(r: RecordModel) -> GroupKey {
    GroupKey { controller: r.controller, path_id: r.path_id, path_name: r.path_name }
}

/// Keys are ordered by controller, then path id, then path name.
pub open spec fn key_less(a: GroupKey, b: GroupKey) -> bool {
    text_less(a.controller, b.controller) || (a.controller == b.controller && (a.path_id
        < b.path_id || (a.path_id == b.path_id && text_less(a.path_name, b.path_name))))
}

/// The totals of one group.
pub struct AggModel {
    pub runs: u64,
    pub acks: u64,
    pub losses: u64,
    pub retransmits: u64,
    pub rtt_samples: u64,
    pub rtt_weighted_sum: u128,
    pub members: Seq<usize>,
}

pub open spec fn sat_add_u64(a: u64, b: u64) -> u64 {
    if a + b > u64::MAX {
        u64::MAX
    } else {
        (a + b) as u64
    }
}

pub open spec fn sat_add_u128(a: u128, b: u128) -> u128 {
    if a + b > u128::MAX {
        u128::MAX
    } else {
        (a + b) as u128
    }
}

pub open spec fn sat_mul_u128(a: u128, b: u128) -> u128 {
    if a * b > u128::MAX {
        u128::MAX
    } else {
        (a * b) as u128
    }
}

pub open spec fn zero_agg() -> AggModel {
    AggModel {
        runs: 0,
        acks: 0,
        losses: 0,
        retransmits: 0,
        rtt_samples: 0,
        rtt_weighted_sum: 0,
        members: seq![],
    }
}

/// The totals once row `r` (at index `i`) is added: one more run, the counts
/// added, the average round trip weighted by its samples, all held at their
/// type's maximum.
pub open spec fn add_row(a: AggModel, r: RecordModel, i: usize) -> AggModel {
    AggModel {
        runs: sat_add_u64(a.runs, 1),
        acks: sat_add_u64(a.acks, r.acks),
        losses: sat_add_u64(a.losses, r.losses),
        retransmits: sat_add_u64(a.retransmits, r.retransmits),
        rtt_samples: sat_add_u64(a.rtt_samples, r.rtt_samples),
        rtt_weighted_sum: sat_add_u128(
            a.rtt_weighted_sum,
            sat_mul_u128(r.rtt_avg_us, r.rtt_samples as u128),
        ),
        members: a.members.push(i),
    }
}

/// The totals of the rows with key `k`.
#[verifier::opaque]
pub open spec fn agg_of(rows: Seq<RecordModel>, k: GroupKey) -> AggModel
    decreases rows.len(),
{
    if rows.len() == 0 {
        zero_agg()
    } else {
        let a = agg_of(rows.drop_last(), k);
        if key_of(rows.last()) == k {
            add_row(a, rows.last(), (rows.len() - 1) as usize)
        } else {
            a
        }
    }
}

/// One group of rows.
pub struct MultipathGroup {
    pub controller: String,
    pub path_id: u8,
    pub path_name: String,
    pub runs: u64,
    pub acks: u64,
    pub losses: u64,
    pub retransmits: u64,
    pub rtt_samples: u64,
    pub rtt_weighted_sum: u128,
    /// Indices of the group's rows, in file order.
    pub members: Vec<usize>,
}

impl MultipathGroup {
    pub open spec fn key(&self) -> GroupKey {
        GroupKey {
            controller: self.controller@,
            path_id: self.path_id,
            path_name: self.path_name@,
        }
    }

    pub open spec fn totals(&self) -> AggModel {
        AggModel {
            runs: self.runs,
            acks: self.acks,
            losses: self.losses,
            retransmits: self.retransmits,
            rtt_samples: self.rtt_samples,
            rtt_weighted_sum: self.rtt_weighted_sum,
            members: self.members@,
        }
    }

    /// The group's average round trip, weighted by samples; 0 without samples.
    pub open spec fn weighted_avg_rtt(&self) -> u128 {
        if self.rtt_samples > 0 {
            self.rtt_weighted_sum / (self.rtt_samples as u128)
        } else {
            0
        }
    }

    /// The group's average round trip, weighted by samples; 0 without samples.
    pub fn weighted_avg_rtt_us(&self) -> (r: u128)
        ensures
            r == self.weighted_avg_rtt(),
    {
        if self.rtt_samples > 0 {
            self.rtt_weighted_sum / self.rtt_samples as u128
        } else {
            0
        }
    }

    /// The fields of the group's summary line before its average quality.
    pub open spec fn summary_fields(&self) -> Seq<Seq<char>> {
        seq![
            self.controller@,
            decimal(self.path_id as nat),
            self.path_name@,
            decimal(self.runs as nat),
            decimal(self.acks as nat),
            decimal(self.losses as nat),
            decimal(self.retransmits as nat),
            decimal(self.weighted_avg_rtt() as nat),
        ]
    }

    /// Renders the group's summary line: its fields as a CSV row, then the
    /// average quality as the caller rendered it.
    pub fn summary_line(&self, avg_quality: &str) -> (line: String)
        ensures
            line@ == csv_row(self.summary_fields()) + seq![','] + avg_quality@,
    {
        let mut fields: Vec<String> = Vec::new();
        fields.push(String::from_str(self.controller.as_str()));
        fields.push(decimal_string(self.path_id as u128));
        fields.push(String::from_str(self.path_name.as_str()));
        fields.push(decimal_string(self.runs as u128));
        fields.push(decimal_string(self.acks as u128));
        fields.push(decimal_string(self.losses as u128));
        fields.push(decimal_string(self.retransmits as u128));
        fields.push(decimal_string(self.weighted_avg_rtt_us()));
        assert(string_views(fields@) =~= self.summary_fields());
        let mut line = csv_row_line(&fields);
        push_char(&mut line, ',');
        push_str(&mut line, avg_quality);
        line
    }
}

/// The key and totals of a group.
pub struct GroupModel {
    pub key: GroupKey,
    pub totals: AggModel,
}

pub open spec fn group_models(groups: Seq<MultipathGroup>) -> Seq<GroupModel> {
    groups.map_values(|g: MultipathGroup| GroupModel { key: g.key(), totals: g.totals() })
}

/// Groups in strictly ascending key order.
#[verifier::opaque]
pub open spec fn keys_ascending(gm: Seq<GroupModel>) -> bool {
    forall|i: int, j: int| 0 <= i < j < gm.len() ==> key_less(#[trigger] gm[i].key, #[trigger] gm[j].key)
}

/// Each group holds the totals of the rows with its key.
#[verifier::opaque]
pub open spec fn totals_match(gm: Seq<GroupModel>, rows: Seq<RecordModel>) -> bool {
    forall|i: int| 0 <= i < gm.len() ==> #[trigger] gm[i].totals == agg_of(rows, gm[i].key)
}

/// Some row has key `k`.
pub open spec fn key_in_rows(rows: Seq<RecordModel>, k: GroupKey) -> bool {
    exists|r: int| 0 <= r < rows.len() && key_of(#[trigger] rows[r]) == k
}

/// Some group has key `k`.
pub open spec fn has_group(gm: Seq<GroupModel>, k: GroupKey) -> bool {
    exists|i: int| 0 <= i < gm.len() && #[trigger] gm[i].key == k
}

/// Each group's key occurs in the rows.
#[verifier::opaque]
pub open spec fn keys_occur(gm: Seq<GroupModel>, rows: Seq<RecordModel>) -> bool {
    forall|i: int| 0 <= i < gm.len() ==> key_in_rows(rows, #[trigger] gm[i].key)
}

/// Each row's key has a group.
#[verifier::opaque]
pub open spec fn rows_covered(gm: Seq<GroupModel>, rows: Seq<RecordModel>) -> bool {
    forall|r: int| 0 <= r < rows.len() ==> has_group(gm, key_of(#[trigger] rows[r]))
}

/// `groups` holds one group per key that occurs in `rows`, in ascending key
/// order, each with the totals of its rows.
pub open spec fn grouped(groups: Seq<MultipathGroup>, rows: Seq<RecordModel>) -> bool {
    let gm = group_models(groups);
    &&& keys_ascending(gm)
    &&& totals_match(gm, rows)
    &&& keys_occur(gm, rows)
    &&& rows_covered(gm, rows)
}

proof fn lemma_update_grouped(gm: Seq<GroupModel>, rows: Seq<RecordModel>, e: int, row: RecordModel)
    requires
        keys_ascending(gm),
        totals_match(gm, rows),
        keys_occur(gm, rows),
        rows_covered(gm, rows),
        0 <= e < gm.len(),
        gm[e].key == key_of(row),
        rows.len() <= usize::MAX,
    ensures
        ({
            let next = rows.push(row);
            let ng = gm.update(
                e,
                GroupModel { key: gm[e].key, totals: add_row(gm[e].totals, row, rows.len() as usize) },
            );
            &&& keys_ascending(ng)
            &&& totals_match(ng, next)
            &&& keys_occur(ng, next)
            &&& rows_covered(ng, next)
        }),
{
    let next = rows.push(row);
    let ng = gm.update(
        e,
        GroupModel { key: gm[e].key, totals: add_row(gm[e].totals, row, rows.len() as usize) },
    );
    assert(next.drop_last() =~= rows);
    assert(keys_ascending(ng)) by {
        reveal(keys_ascending);
        assert forall|a: int, b: int| 0 <= a < b < ng.len() implies key_less(
            #[trigger] ng[a].key,
            #[trigger] ng[b].key,
        ) by {
            assert(ng[a].key == gm[a].key);
            assert(ng[b].key == gm[b].key);
        }
    }
    assert(totals_match(ng, next)) by {
        reveal(totals_match);
        reveal(agg_of);
        reveal(keys_ascending);
        assert forall|a: int| 0 <= a < ng.len() implies #[trigger] ng[a].totals == agg_of(
            next,
            ng[a].key,
        ) by {
            if a != e {
                assert(ng[a] == gm[a]);
                lemma_key_less_facts(gm[a].key, gm[a].key, gm[a].key);
                lemma_key_less_facts(gm[e].key, gm[e].key, gm[e].key);
                if a < e {
                    assert(key_less(gm[a].key, gm[e].key));
                } else {
                    assert(key_less(gm[e].key, gm[a].key));
                }
                assert(gm[a].key != key_of(row));
            }
        }
    }
    assert(keys_occur(ng, next)) by {
        reveal(keys_occur);
        assert forall|a: int| 0 <= a < ng.len() implies key_in_rows(next, #[trigger] ng[a].key) by {
            assert(ng[a].key == gm[a].key);
            assert(key_in_rows(rows, gm[a].key));
            let x = choose|x: int| 0 <= x < rows.len() && key_of(#[trigger] rows[x]) == gm[a].key;
            assert(next[x] == rows[x]);
        }
    }
    lemma_update_covered(gm, rows, e, row);
}

proof fn lemma_update_covered(gm: Seq<GroupModel>, rows: Seq<RecordModel>, e: int, row: RecordModel)
    requires
        rows_covered(gm, rows),
        0 <= e < gm.len(),
        gm[e].key == key_of(row),
        rows.len() <= usize::MAX,
    ensures
        rows_covered(
            gm.update(
                e,
                GroupModel { key: gm[e].key, totals: add_row(gm[e].totals, row, rows.len() as usize) },
            ),
            rows.push(row),
        ),
{
    reveal(rows_covered);
    let next = rows.push(row);
    let ng = gm.update(
        e,
        GroupModel { key: gm[e].key, totals: add_row(gm[e].totals, row, rows.len() as usize) },
    );
    assert forall|x: int| 0 <= x < next.len() implies has_group(ng, key_of(#[trigger] next[x])) by {
        if x < rows.len() {
            assert(next[x] == rows[x]);
            assert(has_group(gm, key_of(rows[x])));
            let a = choose|a: int| 0 <= a < gm.len() && #[trigger] gm[a].key == key_of(rows[x]);
            assert(ng[a].key == gm[a].key);
        } else {
            assert(next[x] == row);
            assert(ng[e].key == key_of(row));
        }
    }
}

proof fn lemma_insert_grouped(gm: Seq<GroupModel>, rows: Seq<RecordModel>, p: int, r: RecordModel)
    requires
        keys_ascending(gm),
        totals_match(gm, rows),
        keys_occur(gm, rows),
        rows_covered(gm, rows),
        0 <= p <= gm.len(),
        forall|j: int| 0 <= j < gm.len() ==> #[trigger] gm[j].key != key_of(r),
        forall|j: int| 0 <= j < p ==> !key_less(key_of(r), #[trigger] gm[j].key),
        p < gm.len() ==> key_less(key_of(r), gm[p].key),
        rows.len() <= usize::MAX,
    ensures
        ({
            let next = rows.push(r);
            let ng = gm.insert(
                p,
                GroupModel { key: key_of(r), totals: add_row(zero_agg(), r, rows.len() as usize) },
            );
            &&& keys_ascending(ng)
            &&& totals_match(ng, next)
            &&& keys_occur(ng, next)
            &&& rows_covered(ng, next)
        }),
{
    let k = key_of(r);
    let next = rows.push(r);
    let created = GroupModel { key: k, totals: add_row(zero_agg(), r, rows.len() as usize) };
    let ng = gm.insert(p, created);
    assert(next.drop_last() =~= rows);
    assert forall|x: int| 0 <= x < rows.len() implies key_of(#[trigger] rows[x]) != k by {
        reveal(rows_covered);
        assert(has_group(gm, key_of(rows[x])));
    }
    lemma_agg_absent(rows, k);
    assert(ng[p] == created);
    assert(keys_ascending(ng)) by {
        reveal(keys_ascending);
        assert forall|a: int, b: int| 0 <= a < b < ng.len() implies key_less(
            #[trigger] ng[a].key,
            #[trigger] ng[b].key,
        ) by {
            let ka = ng[a].key;
            let kb = ng[b].key;
            if b < p {
                assert(ka == gm[a].key && kb == gm[b].key);
            } else if a > p {
                assert(ka == gm[a - 1].key && kb == gm[b - 1].key);
            } else if a == p {
                assert(kb == gm[b - 1].key);
                let kp = gm[p].key;
                if b - 1 > p {
                    assert(key_less(kp, kb));
                }
                lemma_key_less_facts(k, kp, kb);
            } else {
                assert(ka == gm[a].key);
                assert(!key_less(k, ka));
                lemma_key_less_facts(ka, k, k);
                assert(key_less(ka, k));
                if b > p {
                    assert(kb == gm[b - 1].key);
                    let kp = gm[p].key;
                    if b - 1 > p {
                        assert(key_less(kp, kb));
                    }
                    lemma_key_less_facts(k, kp, kb);
                    lemma_key_less_facts(ka, k, kb);
                }
            }
        }
    }
    assert(totals_match(ng, next)) by {
        reveal(totals_match);
        reveal(agg_of);
        assert forall|a: int| 0 <= a < ng.len() implies #[trigger] ng[a].totals == agg_of(
            next,
            ng[a].key,
        ) by {
            if a < p {
                assert(ng[a] == gm[a]);
                assert(gm[a].key != k);
            } else if a > p {
                assert(ng[a] == gm[a - 1]);
                assert(gm[a - 1].key != k);
            }
        }
    }
    assert(keys_occur(ng, next)) by {
        reveal(keys_occur);
        assert forall|a: int| 0 <= a < ng.len() implies key_in_rows(next, #[trigger] ng[a].key) by {
            if a == p {
                assert(key_of(next[rows.len() as int]) == ng[a].key);
            } else {
                let b = if a < p {
                    a
                } else {
                    a - 1
                };
                assert(ng[a] == gm[b]);
                assert(key_in_rows(rows, gm[b].key));
                let x = choose|x: int| 0 <= x < rows.len() && key_of(#[trigger] rows[x]) == gm[b].key;
                assert(next[x] == rows[x]);
            }
        }
    }
    assert(rows_covered(ng, next)) by {
        reveal(rows_covered);
        assert forall|x: int| 0 <= x < next.len() implies has_group(ng, key_of(#[trigger] next[x])) by {
            if x < rows.len() {
                assert(next[x] == rows[x]);
                assert(has_group(gm, key_of(rows[x])));
                let a = choose|a: int| 0 <= a < gm.len() && #[trigger] gm[a].key == key_of(rows[x]);
                if a < p {
                    assert(ng[a] == gm[a]);
                } else {
                    assert(ng[a + 1] == gm[a]);
                }
            } else {
                assert(ng[p].key == k);
            }
        }
    }
}

/// The sum of `field` over the rows with key `k`.
pub open spec fn key_sum(rows: Seq<RecordModel>, k: GroupKey, field: spec_fn(RecordModel) -> int) -> int
    decreases rows.len(),
{
    if rows.len() == 0 {
        0
    } else {
        key_sum(rows.drop_last(), k, field) + if key_of(rows.last()) == k {
            field(rows.last())
        } else {
            0
        }
    }
}

/// `x`, held at `max`.
pub open spec fn capped(x: int, max: int) -> int {
    if x > max {
        max
    } else {
        x
    }
}

/// A group's totals are the sums over the rows with its key, each held at
/// `u64::MAX`: its runs count those rows, and its ACKs, losses,
/// retransmissions and round-trip samples add up theirs, and its weighted
/// round-trip sum adds up each row's average round trip times its samples.
pub proof fn lemma_group_totals_are_sums(rows: Seq<RecordModel>, k: GroupKey)
    ensures
        agg_of(rows, k).runs == capped(key_sum(rows, k, |r: RecordModel| 1int), u64::MAX as int),
        agg_of(rows, k).acks == capped(key_sum(rows, k, |r: RecordModel| r.acks as int), u64::MAX as int),
        agg_of(rows, k).losses == capped(
            key_sum(rows, k, |r: RecordModel| r.losses as int),
            u64::MAX as int,
        ),
        agg_of(rows, k).retransmits == capped(
            key_sum(rows, k, |r: RecordModel| r.retransmits as int),
            u64::MAX as int,
        ),
        agg_of(rows, k).rtt_samples == capped(
            key_sum(rows, k, |r: RecordModel| r.rtt_samples as int),
            u64::MAX as int,
        ),
        agg_of(rows, k).rtt_weighted_sum == capped(
            key_sum(rows, k, |r: RecordModel| r.rtt_avg_us as int * r.rtt_samples as int),
            u128::MAX as int,
        ),
    decreases rows.len(),
{
    reveal(agg_of);
    if rows.len() > 0 {
        lemma_group_totals_are_sums(rows.drop_last(), k);
    }
}

/// The members of a group are exactly the indices of the rows with its key,
/// each once, in file order.
pub proof fn lemma_group_members(rows: Seq<RecordModel>, k: GroupKey)
    requires
        rows.len() <= usize::MAX,
    ensures
        forall|j: int|
            0 <= j < agg_of(rows, k).members.len() ==> 0 <= #[trigger] agg_of(rows, k).members[j]
                < rows.len() && key_of(rows[agg_of(rows, k).members[j] as int]) == k,
        forall|i: int, j: int|
            0 <= i < j < agg_of(rows, k).members.len() ==> #[trigger] agg_of(rows, k).members[i]
                < #[trigger] agg_of(rows, k).members[j],
        forall|r: int|
            0 <= r < rows.len() && key_of(#[trigger] rows[r]) == k ==> agg_of(
                rows,
                k,
            ).members.contains(r as usize),
    decreases rows.len(),
{
    reveal(agg_of);
    if rows.len() > 0 {
        let t = rows.drop_last();
        lemma_group_members(t, k);
        let a = agg_of(t, k);
        let m = agg_of(rows, k).members;
        let last = (rows.len() - 1) as usize;
        if key_of(rows.last()) == k {
            assert(m == a.members.push(last));
            assert forall|j: int| 0 <= j < a.members.len() implies #[trigger] a.members[j] < last by {}
        } else {
            assert(m == a.members);
        }
        assert forall|j: int| 0 <= j < m.len() implies 0 <= #[trigger] m[j] < rows.len() && key_of(
            rows[m[j] as int],
        ) == k by {
            if j < a.members.len() {
                assert(m[j] == a.members[j]);
                assert(rows[m[j] as int] == t[a.members[j] as int]);
            }
        }
        assert forall|i: int, j: int| 0 <= i < j < m.len() implies #[trigger] m[i] < #[trigger] m[j] by {
            if j < a.members.len() {
                assert(m[i] == a.members[i] && m[j] == a.members[j]);
            } else {
                assert(m[i] == a.members[i]);
            }
        }
        assert forall|r: int| 0 <= r < rows.len() && key_of(#[trigger] rows[r]) == k implies m.contains(
            r as usize,
        ) by {
            if r < t.len() {
                assert(t[r] == rows[r]);
                assert(a.members.contains(r as usize));
                let j = choose|j: int| 0 <= j < a.members.len() && a.members[j] == r as usize;
                assert(m[j] == r as usize);
            } else {
                assert(m[m.len() - 1] == r as usize);
            }
        }
    }
}

/// What the grouping gives: each group's totals are the sums over the rows
/// with its key, held at `u64::MAX`.
pub proof fn lemma_grouped_totals(groups: Seq<MultipathGroup>, rows: Seq<RecordModel>, i: int)
    requires
        grouped(groups, rows),
        0 <= i < groups.len(),
    ensures
        groups[i].runs == capped(
            key_sum(rows, groups[i].key(), |r: RecordModel| 1int),
            u64::MAX as int,
        ),
        groups[i].acks == capped(
            key_sum(rows, groups[i].key(), |r: RecordModel| r.acks as int),
            u64::MAX as int,
        ),
        groups[i].losses == capped(
            key_sum(rows, groups[i].key(), |r: RecordModel| r.losses as int),
            u64::MAX as int,
        ),
        groups[i].retransmits == capped(
            key_sum(rows, groups[i].key(), |r: RecordModel| r.retransmits as int),
            u64::MAX as int,
        ),
        groups[i].rtt_samples == capped(
            key_sum(rows, groups[i].key(), |r: RecordModel| r.rtt_samples as int),
            u64::MAX as int,
        ),
        groups[i].rtt_weighted_sum == capped(
            key_sum(
                rows,
                groups[i].key(),
                |r: RecordModel| r.rtt_avg_us as int * r.rtt_samples as int,
            ),
            u128::MAX as int,
        ),
{
    reveal(totals_match);
    let gm = group_models(groups);
    assert(gm[i].totals == agg_of(rows, gm[i].key));
    lemma_group_totals_are_sums(rows, groups[i].key());
}

proof fn lemma_agg_absent(rows: Seq<RecordModel>, k: GroupKey)
    requires
        forall|r: int| 0 <= r < rows.len() ==> key_of(#[trigger] rows[r]) != k,
    ensures
        agg_of(rows, k) == zero_agg(),
    decreases rows.len(),
{
    reveal(agg_of);
    if rows.len() > 0 {
        let t = rows.drop_last();
        assert forall|r: int| 0 <= r < t.len() implies key_of(#[trigger] t[r]) != k by {
            assert(t[r] == rows[r]);
        }
        lemma_agg_absent(t, k);
        assert(key_of(rows[rows.len() - 1]) != k);
    }
}

proof fn lemma_key_less_facts(a: GroupKey, b: GroupKey, c: GroupKey)
    ensures
        !key_less(a, a),
        key_less(a, b) && key_less(b, c) ==> key_less(a, c),
        a == b || key_less(a, b) || key_less(b, a),
{
    lemma_text_less_irreflexive(a.controller);
    lemma_text_less_irreflexive(a.path_name);
    if key_less(a, b) && key_less(b, c) {
        if text_less(a.controller, b.controller) && text_less(b.controller, c.controller) {
            lemma_text_less_transitive(a.controller, b.controller, c.controller);
        }
        if a.controller == b.controller && b.controller == c.controller && a.path_id == b.path_id
            && b.path_id == c.path_id {
            lemma_text_less_transitive(a.path_name, b.path_name, c.path_name);
        }
    }
    lemma_text_less_total(a.controller, b.controller);
    lemma_text_less_total(a.path_name, b.path_name);
}

fn same_key(g: &MultipathGroup, r: &MultipathRecord) -> (b: bool)
    ensures
        b == (g.key() == key_of(r.model())),
{
    let b = str_equals(g.controller.as_str(), r.controller.as_str()) && g.path_id == r.path_id
        && str_equals(g.path_name.as_str(), r.path_name.as_str());
    assert(b ==> g.key() =~= key_of(r.model()));
    b
}

fn key_before(r: &MultipathRecord, g: &MultipathGroup) -> (b: bool)
    ensures
        b == key_less(key_of(r.model()), g.key()),
{
    if text_lt(r.controller.as_str(), g.controller.as_str()) {
        return true;
    }
    if !str_equals(r.controller.as_str(), g.controller.as_str()) {
        return false;
    }
    if r.path_id < g.path_id {
        return true;
    }
    r.path_id == g.path_id && text_lt(r.path_name.as_str(), g.path_name.as_str())
}

fn saturating_mul_u128(a: u128, b: u128) -> (r: u128)
    ensures
        r == sat_mul_u128(a, b),
{
    match a.checked_mul(b) {
        Some(v) => v,
        None => u128::MAX,
    }
}

fn update_group(
    groups: &mut Vec<MultipathGroup>,
    e: usize,
    r: &MultipathRecord,
    i: usize,
    Ghost(prefix): Ghost<Seq<RecordModel>>,
)
    requires
        grouped(old(groups)@, prefix),
        prefix.len() == i,
        e < old(groups)@.len(),
        old(groups)@[e as int].key() == key_of(r.model()),
    ensures
        grouped(final(groups)@, prefix.push(r.model())),
{
    let ghost old_groups = groups@;
    let weighted = saturating_mul_u128(r.rtt_avg_us, r.rtt_samples as u128);
    let mut g = groups.remove(e);
    g.runs = g.runs.saturating_add(1);
    g.acks = g.acks.saturating_add(r.acks);
    g.losses = g.losses.saturating_add(r.losses);
    g.retransmits = g.retransmits.saturating_add(r.retransmits);
    g.rtt_samples = g.rtt_samples.saturating_add(r.rtt_samples);
    g.rtt_weighted_sum = g.rtt_weighted_sum.saturating_add(weighted);
    g.members.push(i);
    let ghost updated = g;
    groups.insert(e, g);
    proof {
        let gm = group_models(old_groups);
        assert(gm[e as int].key == key_of(r.model()));
        lemma_update_grouped(gm, prefix, e as int, r.model());
        assert(updated.totals() =~= add_row(gm[e as int].totals, r.model(), i));
        assert(group_models(groups@) =~= gm.update(
            e as int,
            GroupModel { key: gm[e as int].key, totals: add_row(gm[e as int].totals, r.model(), i) },
        ));
    }
}

fn insert_group(
    groups: &mut Vec<MultipathGroup>,
    p: usize,
    r: &MultipathRecord,
    i: usize,
    Ghost(prefix): Ghost<Seq<RecordModel>>,
)
    requires
        grouped(old(groups)@, prefix),
        prefix.len() == i,
        p <= old(groups)@.len(),
        forall|j: int| 0 <= j < old(groups)@.len() ==> #[trigger] old(groups)@[j].key() != key_of(r.model()),
        forall|j: int| 0 <= j < p ==> !key_less(key_of(r.model()), #[trigger] old(groups)@[j].key()),
        p < old(groups)@.len() ==> key_less(key_of(r.model()), old(groups)@[p as int].key()),
    ensures
        grouped(final(groups)@, prefix.push(r.model())),
{
    let ghost old_groups = groups@;
    let weighted = saturating_mul_u128(r.rtt_avg_us, r.rtt_samples as u128);
    let mut members: Vec<usize> = Vec::new();
    members.push(i);
    let g = MultipathGroup {
        controller: r.controller.clone(),
        path_id: r.path_id,
        path_name: r.path_name.clone(),
        runs: 1,
        acks: r.acks,
        losses: r.losses,
        retransmits: r.retransmits,
        rtt_samples: r.rtt_samples,
        rtt_weighted_sum: weighted,
        members,
    };
    let ghost created = g;
    groups.insert(p, g);
    proof {
        let gm = group_models(old_groups);
        assert forall|j: int| 0 <= j < gm.len() implies #[trigger] gm[j].key != key_of(r.model()) by {
            assert(gm[j].key == old_groups[j].key());
        }
        assert forall|j: int| 0 <= j < p implies !key_less(key_of(r.model()), #[trigger] gm[j].key) by {
            assert(gm[j].key == old_groups[j].key());
        }
        lemma_insert_grouped(gm, prefix, p as int, r.model());
        assert(created.key() == key_of(r.model()));
        assert(created.totals() =~= add_row(zero_agg(), r.model(), i));
        assert(group_models(groups@) =~= gm.insert(
            p as int,
            GroupModel { key: key_of(r.model()), totals: add_row(zero_agg(), r.model(), i) },
        ));
    }
}

/// Groups the rows by (controller, path id, path name) in ascending key order.
pub fn group_multipath_rows(rows: &Vec<MultipathRecord>) -> (groups: Vec<MultipathGroup>)
    ensures
        grouped(groups@, models(rows@)),
{
    let mut groups: Vec<MultipathGroup> = Vec::new();
    let mut i: usize = 0;
    assert(models(rows@).take(0) =~= Seq::<RecordModel>::empty());
    proof {
        reveal(keys_ascending);
        reveal(totals_match);
        reveal(keys_occur);
        reveal(rows_covered);
        assert(group_models(groups@) =~= Seq::<GroupModel>::empty());
    }
    while i < rows.len()
        invariant
            i <= rows@.len(),
            grouped(groups@, models(rows@).take(i as int)),
        decreases rows@.len() - i,
    {
        let ghost prefix = models(rows@).take(i as int);
        assert(models(rows@).take(i + 1) =~= prefix.push(rows@[i as int].model()));
        let r = &rows[i];
        let ghost k = key_of(r.model());
        let mut e: usize = 0;
        while e < groups.len() && !same_key(&groups[e], r)
            invariant
                e <= groups@.len(),
                k == key_of(r.model()),
                forall|j: int| 0 <= j < e ==> #[trigger] groups@[j].key() != k,
            decreases groups@.len() - e,
        {
            e = e + 1;
        }
        if e < groups.len() {
            update_group(&mut groups, e, r, i, Ghost(prefix));
        } else {
            let mut p: usize = 0;
            while p < groups.len() && !key_before(r, &groups[p])
                invariant
                    p <= groups@.len(),
                    k == key_of(r.model()),
                    forall|j: int| 0 <= j < p ==> !key_less(k, #[trigger] groups@[j].key()),
                decreases groups@.len() - p,
            {
                p = p + 1;
            }
            insert_group(&mut groups, p, r, i, Ghost(prefix));
        }
        i = i + 1;
    }
    assert(models(rows@).take(rows@.len() as int) =~= models(rows@));
    groups
}


/// The fields a run writes for one path, before its quality: time stamp,
/// run, controller, path id and name, the path's counters and its average
/// round trip.
pub open spec fn path_result_fields(
    ts_us: u64,
    run_id: u32,
    controller: Seq<char>,
    path_id: u8,
    path_name: Seq<char>,
    stats: MultipathStats,
) -> Seq<Seq<char>> {
    seq![
        decimal(ts_us as nat),
        decimal(run_id as nat),
        controller,
        decimal(path_id as nat),
        path_name,
        decimal(stats.acks as nat),
        decimal(stats.losses as nat),
        decimal(stats.retransmits as nat),
        decimal(stats.rtt_samples as nat),
        decimal(average_rtt(stats) as nat),
    ]
}

/// The results line of one path: its fields as a CSV row, then the quality
/// as the caller rendered it.
pub open spec fn path_result_text(
    ts_us: u64,
    run_id: u32,
    controller: Seq<char>,
    path_id: u8,
    path_name: Seq<char>,
    stats: MultipathStats,
    quality: Seq<char>,
) -> Seq<char> {
    csv_row(path_result_fields(ts_us, run_id, controller, path_id, path_name, stats)) + seq![',']
        + quality
}

/// Renders the results line of one path.
pub fn path_result_line(
    ts_us: u64,
    run_id: u32,
    controller: &str,
    path_id: u8,
    path_name: &str,
    stats: &MultipathStats,
    quality: &str,
) -> (line: String)
    ensures
        line@ == path_result_text(ts_us, run_id, controller@, path_id, path_name@, *stats, quality@),
{
    let mut fields: Vec<String> = Vec::new();
    fields.push(decimal_string(ts_us as u128));
    fields.push(decimal_string(run_id as u128));
    fields.push(String::from_str(controller));
    fields.push(decimal_string(path_id as u128));
    fields.push(String::from_str(path_name));
    fields.push(decimal_string(stats.acks as u128));
    fields.push(decimal_string(stats.losses as u128));
    fields.push(decimal_string(stats.retransmits as u128));
    fields.push(decimal_string(stats.rtt_samples as u128));
    fields.push(decimal_string(stats.average_rtt_us()));
    assert(string_views(fields@) =~= path_result_fields(
        ts_us,
        run_id,
        controller@,
        path_id,
        path_name@,
        *stats,
    ));
    let mut line = csv_row_line(&fields);
    push_char(&mut line, ',');
    push_str(&mut line, quality);
    assert(line@ =~= path_result_text(
        ts_us,
        run_id,
        controller@,
        path_id,
        path_name@,
        *stats,
        quality@,
    ));
    line
}

/// A path's results line is read back as the record that was written, as
/// long as the controller and path names have no surrounding white space
/// (the reader trims them) and the quality text holds no comma or quote.
pub proof fn lemma_path_result_reads_back(
    ts_us: u64,
    run_id: u32,
    controller: Seq<char>,
    path_id: u8,
    path_name: Seq<char>,
    stats: MultipathStats,
    quality: Seq<char>,
)
    requires
        trimmed(controller) == controller,
        trimmed(path_name) == path_name,
        splits_plain(quality),
    ensures
        row_of(path_result_text(ts_us, run_id, controller, path_id, path_name, stats, quality))
            == Some(
            RecordModel {
                controller,
                path_id,
                path_name,
                acks: stats.acks,
                losses: stats.losses,
                retransmits: stats.retransmits,
                rtt_samples: stats.rtt_samples,
                rtt_avg_us: average_rtt(stats),
                quality,
            },
        ),
{
    let fields = path_result_fields(ts_us, run_id, controller, path_id, path_name, stats);
    lemma_csv_row_then_plain_splits_back(fields, quality);
    let cols = csv_fields(
        path_result_text(ts_us, run_id, controller, path_id, path_name, stats, quality),
    );
    assert(cols == fields.push(quality));
    lemma_decimal_is_plain(path_id as nat);
    lemma_decimal_is_plain(stats.acks as nat);
    lemma_decimal_is_plain(stats.losses as nat);
    lemma_decimal_is_plain(stats.retransmits as nat);
    lemma_decimal_is_plain(stats.rtt_samples as nat);
    lemma_decimal_is_plain(average_rtt(stats) as nat);
    lemma_decimal_reads_back(path_id as nat);
    lemma_decimal_reads_back(stats.acks as nat);
    lemma_decimal_reads_back(stats.losses as nat);
    lemma_decimal_reads_back(stats.retransmits as nat);
    lemma_decimal_reads_back(stats.rtt_samples as nat);
    lemma_decimal_reads_back(average_rtt(stats) as nat);
    assert(cols.len() == 11);
    assert(cols[2] == controller);
    assert(cols[3] == decimal(path_id as nat));
    assert(cols[4] == path_name);
    assert(cols[5] == decimal(stats.acks as nat));
    assert(cols[6] == decimal(stats.losses as nat));
    assert(cols[7] == decimal(stats.retransmits as nat));
    assert(cols[8] == decimal(stats.rtt_samples as nat));
    assert(cols[9] == decimal(average_rtt(stats) as nat));
    assert(cols[10] == quality);
    assert((path_id as u64) % 256 == path_id as u64);
}

} // verus!
