//! What the results table shows: which records, in which rows, how wide the
//! columns are, and the closing summary. Printing it is left to the caller.
use vstd::prelude::*;
use vstd::utf8::encode_utf8;
use crate::cli::Cli;
use crate::text::{contains_seq, contains_str, has_char, index_of, is_digit, chars_of, find_char};
use crate::types::{dependency_outdated, type_label, Dependency, DependencyView};

verus! {

/// Whether a version string names a pre-release: it has a `-`, and it names
/// `alpha`, `beta`, `rc`, `pre` or `dev`, or the text after its first `-`
/// starts with a digit.
pub open spec fn is_prerelease(s: Seq<char>) -> bool {
    has_char(s, '-') && (contains_seq(s, "alpha"@) || contains_seq(s, "beta"@) || contains_seq(
        s,
        "rc"@,
    ) || contains_seq(s, "pre"@) || contains_seq(s, "dev"@) || (index_of(s, '-') + 1 < s.len()
        && is_digit(s[index_of(s, '-') + 1])))
}

pub fn is_prerelease_version(version: &str) -> (r: bool)
    ensures
        r == is_prerelease(version@),
{
    let v = chars_of(version);
    let n = v.len();
    assert(v@.subrange(0, n as int) =~= v@);
    let dash = match find_char(&v, 0, n, '-') {
        Some(d) => d,
        None => {
            proof {
                crate::text::lemma_index_of(v@, '-');
            }
            return false;
        },
    };
    proof {
        crate::text::lemma_index_of(v@, '-');
    }
    if contains_str(version, "alpha") || contains_str(version, "beta") || contains_str(version, "rc")
        || contains_str(version, "pre") || contains_str(version, "dev") {
        return true;
    }
    dash + 1 < n && '0' <= v[dash + 1] && v[dash + 1] <= '9'
}

/// How a record stands against the registry.
#[derive(Debug, Clone, Copy, PartialEq, Eq, Structural)]
pub enum Status {
    Outdated,
    OutdatedPre,
    Latest,
    LatestPre,
    Unknown,
}

pub open spec fn status_of(d: DependencyView) -> Status {
    match d.latest_version {
        None => Status::Unknown,
        Some(l) => {
            if dependency_outdated(d) {
                if is_prerelease(l) {
                    Status::OutdatedPre
                } else {
                    Status::Outdated
                }
            } else if is_prerelease(l) {
                Status::LatestPre
            } else {
                Status::Latest
            }
        },
    }
}

pub open spec fn status_text(s: Status) -> Seq<char> {
    match s {
        Status::Outdated => "🔴 Outdated"@,
        Status::OutdatedPre => "🟡 Outdated (Pre)"@,
        Status::Latest => "✅ Latest"@,
        Status::LatestPre => "🟢 Latest (Pre)"@,
        Status::Unknown => "❓ Unknown"@,
    }
}

impl Status {
    /// The text of the status column.
    pub fn text(&self) -> (r: &'static str)
        ensures
            r@ == status_text(*self),
    {
        match self {
            Status::Outdated => "🔴 Outdated",
            Status::OutdatedPre => "🟡 Outdated (Pre)",
            Status::Latest => "✅ Latest",
            Status::LatestPre => "🟢 Latest (Pre)",
            Status::Unknown => "❓ Unknown",
        }
    }

    pub fn is_outdated(&self) -> (r: bool)
        ensures
            r == (*self == Status::Outdated || *self == Status::OutdatedPre),
    {
        matches!(self, Status::Outdated | Status::OutdatedPre)
    }
}

pub fn get_status(dep: &Dependency) -> (r: Status)
    ensures
        r == status_of(dep@),
{
    match &dep.latest_version {
        Some(latest) => {
            let pre = is_prerelease_version(latest.as_str());
            if dep.is_outdated() {
                if pre {
                    Status::OutdatedPre
                } else {
                    Status::Outdated
                }
            } else if pre {
                Status::LatestPre
            } else {
                Status::Latest
            }
        },
        None => Status::Unknown,
    }
}

pub open spec fn ref_views(s: Seq<&Dependency>) -> Seq<DependencyView> {
    s.map_values(|d: &Dependency| d@)
}

/// The records that a filter keeps, in order.
pub open spec fn kept(s: Seq<DependencyView>, outdated_only: bool) -> Seq<DependencyView>
    decreases s.len(),
{
    if s.len() == 0 {
        Seq::empty()
    } else {
        let rest = kept(s.drop_last(), outdated_only);
        if !outdated_only || dependency_outdated(s.last()) {
            rest.push(s.last())
        } else {
            rest
        }
    }
}

/// The records to show: all of them, or only the outdated ones.
pub fn filter_results<'a>(results: &'a Vec<Dependency>, cli: &Cli) -> (r: Vec<&'a Dependency>)
    ensures
        ref_views(r@) == kept(results@.map_values(|d: Dependency| d@), cli.outdated_only),
{
    let only = cli.output_filter().is_outdated_only();
    let ghost all = results@.map_values(|d: Dependency| d@);
    let mut out: Vec<&'a Dependency> = Vec::new();
    let mut i: usize = 0;
    assert(all.subrange(0, 0) =~= Seq::<DependencyView>::empty());
    assert(ref_views(out@) =~= Seq::empty());
    while i < results.len()
        invariant
            all == results@.map_values(|d: Dependency| d@),
            only == cli.outdated_only,
            i <= results@.len(),
            ref_views(out@) == kept(all.subrange(0, i as int), only),
        decreases results@.len() - i,
    {
        let d = &results[i];
        let ghost next = all.subrange(0, i + 1);
        assert(next.drop_last() =~= all.subrange(0, i as int));
        assert(next.last() == d@);
        if !only || d.is_outdated() {
            let ghost before = out@;
            out.push(d);
            assert(ref_views(out@) =~= ref_views(before).push(d@));
        }
        i = i + 1;
    }
    assert(all.subrange(0, i as int) =~= all);
    out
}

/// The line shown when no record is left to show.
pub fn empty_results_message(cli: &Cli) -> (r: &'static str)
    ensures
        r@ == if cli.outdated_only {
            "🎉 No outdated dependencies found!"@
        } else {
            "❌ No dependencies found"@
        },
{
    if cli.output_filter().is_outdated_only() {
        "🎉 No outdated dependencies found!"
    } else {
        "❌ No dependencies found"
    }
}

/// Whether the records come from more than one manifest.
pub fn check_multiple_sources(deps: &Vec<&Dependency>) -> (r: bool)
    ensures
        r == exists|i: int, j: int|
            0 <= i < deps@.len() && 0 <= j < deps@.len() && deps@[i].source@ != deps@[j].source@,
{
    if deps.len() == 0 {
        return false;
    }
    let first = deps[0].source.as_str();
    let mut i: usize = 1;
    while i < deps.len()
        invariant
            1 <= i <= deps@.len(),
            first@ == deps@[0].source@,
            forall|k: int| 0 <= k < i ==> deps@[k].source@ == first@,
        decreases deps@.len() - i,
    {
        if !crate::text::text_eq(deps[i].source.as_str(), first) {
            return true;
        }
        i = i + 1;
    }
    false
}

/// One row of the results table.
#[derive(Debug)]
pub struct DisplayRow {
    /// The name, with the kind's suffix.
    pub name: String,
    pub current: String,
    /// The latest version, or `N/A`.
    pub latest: String,
    pub source: String,
    pub status: Status,
}

pub struct DisplayRowView {
    pub name: Seq<char>,
    pub current: Seq<char>,
    pub latest: Seq<char>,
    pub source: Seq<char>,
    pub status: Status,
}

impl View for DisplayRow {
    type V = DisplayRowView;

    open spec fn view(&self) -> DisplayRowView {
        DisplayRowView {
            name: self.name@,
            current: self.current@,
            latest: self.latest@,
            source: self.source@,
            status: self.status,
        }
    }
}

pub open spec fn row_of(d: DependencyView) -> DisplayRowView {
    DisplayRowView {
        name: d.name + type_label(d.dep_type),
        current: d.current_version,
        latest: match d.latest_version {
            Some(l) => l,
            None => "N/A"@,
        },
        source: d.source,
        status: status_of(d),
    }
}

pub open spec fn rows_view(rows: Seq<DisplayRow>) -> Seq<DisplayRowView> {
    rows.map_values(|r: DisplayRow| r@)
}

/// The rows of the table, one per record, in order.
pub fn prepare_display_data(deps: &Vec<&Dependency>) -> (r: Vec<DisplayRow>)
    ensures
        rows_view(r@) == ref_views(deps@).map_values(|d: DependencyView| row_of(d)),
{
    let ghost target = ref_views(deps@).map_values(|d: DependencyView| row_of(d));
    let mut out: Vec<DisplayRow> = Vec::new();
    let mut i: usize = 0;
    while i < deps.len()
        invariant
            target == ref_views(deps@).map_values(|d: DependencyView| row_of(d)),
            i <= deps@.len(),
            rows_view(out@) == target.subrange(0, i as int),
        decreases deps@.len() - i,
    {
        let d = deps[i];
        let latest = match &d.latest_version {
            Some(l) => l.clone(),
            None => String::from_str("N/A"),
        };
        let row = DisplayRow {
            name: d.name.clone().concat(d.dep_type.label()),
            current: d.current_version.clone(),
            latest,
            source: d.source.clone(),
            status: get_status(d),
        };
        let ghost before = out@;
        out.push(row);
        assert(rows_view(out@) =~= rows_view(before).push(row@));
        assert(rows_view(out@) =~= target.subrange(0, i + 1));
        i = i + 1;
    }
    assert(target.subrange(0, i as int) =~= target);
    out
}

/// The number of bytes of `s` in UTF-8, which `str::len` gives.
pub open spec fn byte_len(s: Seq<char>) -> nat {
    encode_utf8(s).len()
}

pub open spec fn max_nat(a: nat, b: nat) -> nat {
    if a >= b {
        a
    } else {
        b
    }
}

/// The widest of `floor` and the given column of `rows`, in bytes.
pub open spec fn column_max(rows: Seq<DisplayRowView>, column: int, floor: nat) -> nat
    decreases rows.len(),
{
    if rows.len() == 0 {
        floor
    } else {
        let r = rows.last();
        let cell = if column == 0 {
            r.name
        } else if column == 1 {
            r.current
        } else if column == 2 {
            r.latest
        } else {
            r.source
        };
        max_nat(column_max(rows.drop_last(), column, floor), byte_len(cell))
    }
}

/// The widths of the table's columns.
#[derive(Debug)]
pub struct ColumnWidths {
    pub name: usize,
    pub current: usize,
    pub latest: usize,
    pub source: usize,
}

/// Every cell of `rows` leaves room for the two spaces of padding.
pub open spec fn rows_fit(rows: Seq<DisplayRowView>) -> bool {
    forall|i: int|
        0 <= i < rows.len() ==> byte_len(#[trigger] rows[i].name) + 2 <= usize::MAX && byte_len(
            rows[i].current,
        ) + 2 <= usize::MAX && byte_len(rows[i].latest) + 2 <= usize::MAX && byte_len(
            rows[i].source,
        ) + 2 <= usize::MAX
}

/// Each column is as wide as its widest cell or its heading, plus two; the
/// source column is left out (zero) when all records come from one manifest.
pub fn calculate_column_widths(rows: &Vec<DisplayRow>, has_multiple_sources: bool) -> (r: ColumnWidths)
    requires
        rows_fit(rows_view(rows@)),
    ensures
        r.name == column_max(rows_view(rows@), 0, 10) + 2,
        r.current == column_max(rows_view(rows@), 1, 15) + 2,
        r.latest == column_max(rows_view(rows@), 2, 14) + 2,
        r.source == if has_multiple_sources {
            column_max(rows_view(rows@), 3, 6) + 2
        } else {
            0
        },
{
    let ghost all = rows_view(rows@);
    let mut name: usize = 10;
    let mut current: usize = 15;
    let mut latest: usize = 14;
    let mut source: usize = 6;
    let mut i: usize = 0;
    assert(all.subrange(0, 0) =~= Seq::<DisplayRowView>::empty());
    while i < rows.len()
        invariant
            all == rows_view(rows@),
            rows_fit(all),
            i <= rows@.len(),
            name == column_max(all.subrange(0, i as int), 0, 10),
            current == column_max(all.subrange(0, i as int), 1, 15),
            latest == column_max(all.subrange(0, i as int), 2, 14),
            source == column_max(all.subrange(0, i as int), 3, 6),
            name + 2 <= usize::MAX,
            current + 2 <= usize::MAX,
            latest + 2 <= usize::MAX,
            source + 2 <= usize::MAX,
        decreases rows@.len() - i,
    {
        let row = &rows[i];
        let ghost next = all.subrange(0, i + 1);
        assert(next.drop_last() =~= all.subrange(0, i as int));
        assert(next.last() == row@);
        assert(all[i as int] == row@);
        let a = row.name.as_str().len();
        let b = row.current.as_str().len();
        let c = row.latest.as_str().len();
        let d = row.source.as_str().len();
        let ghost prev = all.subrange(0, i as int);
        assert(column_max(next, 0, 10) == max_nat(column_max(prev, 0, 10), byte_len(row.name@)));
        assert(column_max(next, 1, 15) == max_nat(column_max(prev, 1, 15), byte_len(row.current@)));
        assert(column_max(next, 2, 14) == max_nat(column_max(prev, 2, 14), byte_len(row.latest@)));
        assert(column_max(next, 3, 6) == max_nat(column_max(prev, 3, 6), byte_len(row.source@)));
        if a > name {
            name = a;
        }
        if b > current {
            current = b;
        }
        if c > latest {
            latest = c;
        }
        if d > source {
            source = d;
        }
        i = i + 1;
    }
    assert(all.subrange(0, i as int) =~= all);
    ColumnWidths {
        name: name + 2,
        current: current + 2,
        latest: latest + 2,
        source: if has_multiple_sources {
            source + 2
        } else {
            0
        },
    }
}

/// The number of rows whose status is outdated.
pub open spec fn outdated_rows(rows: Seq<DisplayRowView>) -> nat
    decreases rows.len(),
{
    if rows.len() == 0 {
        0
    } else {
        outdated_rows(rows.drop_last()) + if rows.last().status == Status::Outdated
            || rows.last().status == Status::OutdatedPre {
            1nat
        } else {
            0nat
        }
    }
}

proof fn lemma_outdated_rows_bound(rows: Seq<DisplayRowView>)
    ensures
        outdated_rows(rows) <= rows.len(),
    decreases rows.len(),
{
    if rows.len() > 0 {
        lemma_outdated_rows_bound(rows.drop_last());
    }
}

pub fn count_outdated(rows: &Vec<DisplayRow>) -> (r: usize)
    ensures
        r == outdated_rows(rows_view(rows@)),
{
    let ghost all = rows_view(rows@);
    let mut count: usize = 0;
    let mut i: usize = 0;
    assert(all.subrange(0, 0) =~= Seq::<DisplayRowView>::empty());
    while i < rows.len()
        invariant
            all == rows_view(rows@),
            i <= rows@.len(),
            count == outdated_rows(all.subrange(0, i as int)),
        decreases rows@.len() - i,
    {
        let ghost next = all.subrange(0, i + 1);
        assert(next.drop_last() =~= all.subrange(0, i as int));
        assert(next.last() == rows@[i as int]@);
        proof {
            lemma_outdated_rows_bound(next);
        }
        if rows[i].status.is_outdated() {
            count = count + 1;
        }
        i = i + 1;
    }
    assert(all.subrange(0, i as int) =~= all);
    count
}

/// The closing line of a report.
#[derive(Debug, Clone, Copy, PartialEq, Eq, Structural)]
pub enum Summary {
    /// Some are outdated: how many, and whether to add the hint on updating.
    Outdated { count: usize, show_hint: bool },
    /// None is outdated and all were shown.
    AllUpToDate,
    /// None is outdated, and only outdated ones were asked for.
    Nothing,
}

pub fn summarize(outdated_count: usize, cli: &Cli) -> (r: Summary)
    ensures
        r == if outdated_count > 0 {
            Summary::Outdated { count: outdated_count, show_hint: cli.verbose }
        } else if !cli.outdated_only {
            Summary::AllUpToDate
        } else {
            Summary::Nothing
        },
{
    if outdated_count > 0 {
        Summary::Outdated { count: outdated_count, show_hint: cli.output_verbosity().is_verbose() }
    } else if !cli.output_filter().is_outdated_only() {
        Summary::AllUpToDate
    } else {
        Summary::Nothing
    }
}

} // verus!
