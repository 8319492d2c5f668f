//! The configuration flags of the servers: how they are read from an endpoint's answer, the
//! rows that a snapshot keeps of them, and what is shown of a snapshot.

use vstd::prelude::*;
use vstd::string::*;
use crate::collector::{
    all_untimed, flat_rows, law_flat_rows_ignore_order, law_rows_ignore_order_and_time, untimed,
    Collected,
};
use crate::snapshot::Timestamp;

verus! {

/// The path, below an endpoint's address, at which it reports its flags.
pub const GFLAGS_PATH: &'static str = "varz?raw";

/// The name under which a snapshot keeps the rows of the flags.
pub const GFLAGS_FILE: &'static str = "gflags";

/// One flag of a server: its name and the value it is set to.
#[derive(Debug)]
pub struct GFlag {
    pub name: String,
    pub value: String,
}

/// The row that a snapshot keeps of one flag as one endpoint reported it.
#[derive(Debug)]
pub struct StoredGFlags {
    pub hostname_port: String,
    pub timestamp: Timestamp,
    pub gflag_name: String,
    pub gflag_value: String,
}

/// The model of a `GFlag`.
pub ghost struct GFlagView {
    pub name: Seq<char>,
    pub value: Seq<char>,
}

/// The model of a `StoredGFlags` row.
pub ghost struct StoredGFlagsView {
    pub hostname_port: Seq<char>,
    pub timestamp: Timestamp,
    pub gflag_name: Seq<char>,
    pub gflag_value: Seq<char>,
}

impl View for GFlag {
    type V = GFlagView;

    open spec fn view(&self) -> GFlagView {
        GFlagView { name: self.name@, value: self.value@ }
    }
}

impl View for StoredGFlags {
    type V = StoredGFlagsView;

    open spec fn view(&self) -> StoredGFlagsView {
        StoredGFlagsView {
            hostname_port: self.hostname_port@,
            timestamp: self.timestamp,
            gflag_name: self.gflag_name@,
            gflag_value: self.gflag_value@,
        }
    }
}

/// The models of a sequence of flags.
pub open spec fn flag_views(flags: Seq<GFlag>) -> Seq<GFlagView> {
    flags.map_values(|f: GFlag| f@)
}

/// The models of a sequence of flag rows.
pub open spec fn stored_flag_views(rows: Seq<StoredGFlags>) -> Seq<StoredGFlagsView> {
    rows.map_values(|r: StoredGFlags| r@)
}

/// The error with which `regex::Regex::new` refuses a pattern. Trusted: the type is taken as
/// it is, and nothing is claimed of what it holds.
#[verifier::external_type_specification]
#[verifier::external_body]
pub struct ExRegexError(regex::Error);

/// Whether `regex::Regex::new` accepts `pattern`: whether it is a regular expression in the
/// syntax of the regex crate whose compiled form stays within the crate's size limit. That
/// limit is taken of the compiled form in memory, so for a pattern close to it the answer is
/// that of the machine the library is built for.
pub uninterp spec fn regex_accepts(pattern: Seq<char>) -> bool;

/// The matches of the regular expression `pattern` in `haystack`, one after the other as
/// `regex::Regex::captures_iter` finds them, where `pattern` is one that `regex::Regex::new`
/// accepts. Each match is given by its groups, the whole match first: the text that a group
/// matched, or `None` for a group that took no part in the match.
pub uninterp spec fn regex_captures(pattern: Seq<char>, haystack: Seq<char>) -> Seq<Seq<Option<Seq<char>>>>;

/// Whether the regular expression `pattern` matches somewhere in `haystack`, as
/// `regex::Regex::is_match` tells, where `pattern` is one that `regex::Regex::new` accepts.
pub uninterp spec fn regex_is_match(pattern: Seq<char>, haystack: Seq<char>) -> bool;

/// The texts of the groups of a sequence of matches.
pub open spec fn capture_texts(rows: Seq<Vec<Option<String>>>) -> Seq<Seq<Option<Seq<char>>>> {
    rows.map_values(
        |row: Vec<Option<String>>|
            row@.map_values(
                |group: Option<String>|
                    match group {
                        Some(text) => Some(text@),
                        None => None,
                    },
            ),
    )
}

/// Compiles `pattern` with `regex::Regex::new` and collects what `regex::Regex::captures_iter`
/// finds in `haystack`: for each match the texts of its groups, as `regex::Captures::iter`
/// hands them out. Trusted: the call fails exactly where `regex::Regex::new` refuses the
/// pattern, under the name `regex_accepts`; of the matches only that they are those of the
/// regular expression, under the name `regex_captures`.
#[verifier::external_body]
fn captures_of(pattern: &str, haystack: &str) -> (found: Result<
    Vec<Vec<Option<String>>>,
    regex::Error,
>)
    ensures
        found is Ok <==> regex_accepts(pattern@),
        found matches Ok(rows) ==> capture_texts(rows@) == regex_captures(pattern@, haystack@),
{
    let compiled = regex::Regex::new(pattern)?;
    Ok(
        compiled.captures_iter(haystack).map(
            |c| c.iter().map(|group| group.map(|m| m.as_str().to_string())).collect(),
        ).collect(),
    )
}

/// Compiles `pattern` with `regex::Regex::new` and asks `regex::Regex::is_match` whether it
/// matches somewhere in `haystack`. Trusted: the call fails exactly where `regex::Regex::new`
/// refuses the pattern, under the name `regex_accepts`; of the answer only that it is that of
/// the regular expression, under the name `regex_is_match`.
#[verifier::external_body]
fn is_match_of(pattern: &str, haystack: &str) -> (found: Result<bool, regex::Error>)
    ensures
        found is Ok <==> regex_accepts(pattern@),
        found matches Ok(b) ==> b == regex_is_match(pattern@, haystack@),
{
    let compiled = regex::Regex::new(pattern)?;
    Ok(compiled.is_match(haystack))
}

/// The regular expression that finds a flag in the answer of an endpoint: two dashes, the
/// name, an equals sign, and the value up to the end of the line.
pub const GFLAG_PATTERN: &'static str = "--([A-Za-z_0-9]*)=(.*)\\n";

/// The text of the group `n` of a match, or the empty text where the match has no such
/// group or the group took no part in it.
pub open spec fn group_text(groups: Seq<Option<Seq<char>>>, n: int) -> Seq<char> {
    if 0 <= n < groups.len() {
        match groups[n] {
            Some(text) => text,
            None => Seq::empty(),
        }
    } else {
        Seq::empty()
    }
}

/// The flags that a sequence of matches stands for: one flag for each match, its name from
/// the first group and its value from the second.
pub open spec fn flags_of(captures: Seq<Seq<Option<Seq<char>>>>) -> Seq<GFlagView> {
    Seq::new(
        captures.len(),
        |i: int| GFlagView { name: group_text(captures[i], 1), value: group_text(captures[i], 2) },
    )
}

/// Copies the text of a group.
fn group_string(groups: &Vec<Option<String>>, n: usize) -> (text: String)
    ensures
        text@ == group_text(capture_texts(seq![*groups])[0], n as int),
{
    if n < groups.len() {
        match &groups[n] {
            Some(t) => t.clone(),
            None => String::new(),
        }
    } else {
        String::new()
    }
}

/// Makes the flags out of the matches of the flag pattern: one flag for each match, in their
/// order, its name from the first group and its value from the second.
pub fn gflags_from_captures(captures: &Vec<Vec<Option<String>>>) -> (flags: Vec<GFlag>)
    ensures
        flag_views(flags@) == flags_of(capture_texts(captures@)),
{
    let ghost expected = flags_of(capture_texts(captures@));
    let mut flags: Vec<GFlag> = Vec::new();
    let mut i: usize = 0;
    while i < captures.len()
        invariant
            i <= captures@.len(),
            expected == flags_of(capture_texts(captures@)),
            flag_views(flags@) == expected.take(i as int),
        decreases captures@.len() - i,
    {
        let ghost before = flags@;
        let groups = &captures[i];
        let flag = GFlag { name: group_string(groups, 1), value: group_string(groups, 2) };
        proof {
            assert(capture_texts(seq![*groups])[0] == capture_texts(captures@)[i as int]);
            assert(flag@ == expected[i as int]);
        }
        flags.push(flag);
        proof {
            assert(flag_views(flags@) =~= flag_views(before).push(expected[i as int]));
            assert(expected.take(i + 1) =~= expected.take(i as int).push(expected[i as int]));
        }
        i += 1;
    }
    assert(expected.take(expected.len() as int) =~= expected);
    flags
}

/// Makes the flags out of the outcome of a search for the flag pattern: where the search
/// was made, one flag for each match, as `gflags_from_captures` makes them; where the
/// pattern was refused, none.
pub fn gflags_from_outcome(found: Result<Vec<Vec<Option<String>>>, regex::Error>) -> (flags: Vec<
    GFlag,
>)
    ensures
        found matches Ok(captures) ==> flag_views(flags@) == flags_of(capture_texts(captures@)),
        found is Err ==> flags@.len() == 0,
{
    match found {
        Ok(captures) => gflags_from_captures(&captures),
        Err(_) => Vec::new(),
    }
}

/// Reads the flags out of the answer of an endpoint: one flag for each match of the flag
/// pattern in the answer. An answer without a match yields no flag. Should the pattern not
/// compile, the answer yields no flag either.
pub fn parse_gflags(gflags_data: String) -> (flags: Vec<GFlag>)
    ensures
        regex_accepts(GFLAG_PATTERN@) ==> flag_views(flags@) == flags_of(
            regex_captures(GFLAG_PATTERN@, gflags_data@),
        ),
        !regex_accepts(GFLAG_PATTERN@) ==> flags@.len() == 0,
{
    gflags_from_outcome(captures_of(GFLAG_PATTERN, gflags_data.as_str()))
}

/// The flags of an endpoint after it has been probed: none of one that is out of reach, and
/// of one within reach those that its answer holds.
pub fn read_gflags(reachable: bool, data_from_http: String) -> (flags: Vec<GFlag>)
    ensures
        !reachable ==> flags@.len() == 0,
        reachable && regex_accepts(GFLAG_PATTERN@) ==> flag_views(flags@) == flags_of(
            regex_captures(GFLAG_PATTERN@, data_from_http@),
        ),
        reachable && !regex_accepts(GFLAG_PATTERN@) ==> flags@.len() == 0,
{
    if !reachable {
        return Vec::new();
    }
    parse_gflags(data_from_http)
}

/// The rows kept of the flags of one endpoint, one for each flag, in their order.
pub open spec fn stored_flags_of(
    flags: Seq<GFlag>,
    hostname_port: Seq<char>,
    timestamp: Timestamp,
) -> Seq<StoredGFlagsView> {
    Seq::new(
        flags.len(),
        |i: int|
            StoredGFlagsView {
                hostname_port,
                timestamp,
                gflag_name: flags[i].name@,
                gflag_value: flags[i].value@,
            },
    )
}

/// Adds a row for each flag of one endpoint to the rows that are kept. What was kept before
/// stays, in front.
pub fn add_to_gflags_vector(
    gflagdata: Vec<GFlag>,
    hostname: &str,
    snapshot_time: Timestamp,
    stored_gflags: &mut Vec<StoredGFlags>,
)
    ensures
        stored_flag_views(final(stored_gflags)@) == stored_flag_views(old(stored_gflags)@)
            + stored_flags_of(gflagdata@, hostname@, snapshot_time),
{
    let ghost expected = stored_flags_of(gflagdata@, hostname@, snapshot_time);
    let ghost base = stored_flag_views(stored_gflags@);
    let ghost all = gflagdata@;
    assert(stored_flag_views(stored_gflags@) =~= base + expected.take(0));
    for gflag in it: gflagdata
        invariant
            it.seq() == all,
            expected == stored_flags_of(all, hostname@, snapshot_time),
            stored_flag_views(stored_gflags@) == base + expected.take(it.index() as int),
    {
        let ghost n = it.index() as int;
        let ghost before = stored_gflags@;
        let row = StoredGFlags {
            hostname_port: String::from_str(hostname),
            timestamp: snapshot_time,
            gflag_name: gflag.name,
            gflag_value: gflag.value,
        };
        assert(row@ == expected[n]);
        stored_gflags.push(row);
        proof {
            assert(stored_flag_views(stored_gflags@) =~= stored_flag_views(before).push(
                expected[n],
            ));
            assert(expected.take(n + 1) =~= expected.take(n).push(expected[n]));
            assert(stored_flag_views(stored_gflags@) =~= base + expected.take(n + 1));
        }
    }
    assert(expected.take(expected.len() as int) =~= expected);
}

/// The rows kept of the flags of one report.
pub open spec fn flag_rows() -> spec_fn(Collected<Vec<GFlag>>) -> Seq<StoredGFlagsView> {
    |r: Collected<Vec<GFlag>>| stored_flags_of(r.payload@, r.hostname_port@, r.timestamp)
}

/// The flag rows of a round: the rows of each endpoint's flags, one endpoint after the
/// other.
pub open spec fn stored_flags_of_reports(reports: Seq<Collected<Vec<GFlag>>>) -> Seq<
    StoredGFlagsView,
> {
    flat_rows(reports, flag_rows())
}

/// What a round keeps of the flags does not depend on the order in which the endpoints'
/// answers come in: the same answers in another order give the same rows, each as often.
pub proof fn law_flag_rows_ignore_order(
    a: Seq<Collected<Vec<GFlag>>>,
    b: Seq<Collected<Vec<GFlag>>>,
)
    requires
        a.to_multiset() == b.to_multiset(),
    ensures
        stored_flags_of_reports(a).to_multiset() == stored_flags_of_reports(b).to_multiset(),
{
    law_flat_rows_ignore_order(a, b, flag_rows());
}

/// A flag row with the time of its report set aside.
pub open spec fn flag_untimed() -> spec_fn(StoredGFlagsView) -> StoredGFlagsView {
    |row: StoredGFlagsView|
        StoredGFlagsView {
            hostname_port: row.hostname_port,
            timestamp: Timestamp { seconds: 0, nanos: 0 },
            gflag_name: row.gflag_name,
            gflag_value: row.gflag_value,
        }
}

/// What a round keeps of the flags depends on what the endpoints answered, not on the order
/// of the answers nor on the times at which they were given: two rounds with the same
/// answers of the same endpoints keep the same rows, the times set aside, each as often.
pub proof fn law_flag_rows_ignore_order_and_time(
    a: Seq<Collected<Vec<GFlag>>>,
    b: Seq<Collected<Vec<GFlag>>>,
)
    requires
        all_untimed(a).to_multiset() == all_untimed(b).to_multiset(),
    ensures
        stored_flags_of_reports(a).map_values(flag_untimed()).to_multiset()
            == stored_flags_of_reports(b).map_values(flag_untimed()).to_multiset(),
{
    assert forall|r: Collected<Vec<GFlag>>| #[trigger]
        flag_rows()(r).map_values(flag_untimed()) == flag_rows()(untimed(r)).map_values(
            flag_untimed(),
        ) by {
        assert(flag_rows()(r).map_values(flag_untimed()) =~= flag_rows()(untimed(r)).map_values(
            flag_untimed(),
        ));
    }
    law_rows_ignore_order_and_time(a, b, flag_rows(), flag_untimed());
}

/// Gathers what a round keeps of the flags: the rows of every endpoint's flags, in the order
/// in which the endpoints' answers came in.
pub fn perform_gflags_snapshot(reports: Vec<Collected<Vec<GFlag>>>) -> (stored_gflags: Vec<
    StoredGFlags,
>)
    ensures
        stored_flag_views(stored_gflags@) == stored_flags_of_reports(reports@),
{
    let ghost every = reports@;
    let mut stored_gflags: Vec<StoredGFlags> = Vec::new();
    assert(stored_flag_views(stored_gflags@) =~= stored_flags_of_reports(every.take(0)));
    for report in it: reports
        invariant
            it.seq() == every,
            stored_flag_views(stored_gflags@) == stored_flags_of_reports(
                every.take(it.index() as int),
            ),
    {
        proof {
            let n = it.index() as int;
            assert(every.take(n + 1).drop_last() =~= every.take(n));
            assert(every.take(n + 1).last() == report);
        }
        add_to_gflags_vector(
            report.payload,
            report.hostname_port.as_str(),
            report.timestamp,
            &mut stored_gflags,
        );
    }
    assert(every.take(every.len() as int) =~= every);
    stored_gflags
}

/// A line of what is shown of the flags of a snapshot.
pub enum GFlagLine {
    /// The heading of an endpoint: its name and the time at which it was asked.
    Host { hostname_port: String, timestamp: Timestamp },
    /// One flag of the endpoint under the last heading.
    Flag { name: String, value: String },
}

/// The model of a `GFlagLine`.
pub ghost enum GFlagLineView {
    Host { hostname_port: Seq<char>, timestamp: Timestamp },
    Flag { name: Seq<char>, value: Seq<char> },
}

impl View for GFlagLine {
    type V = GFlagLineView;

    open spec fn view(&self) -> GFlagLineView {
        match *self {
            GFlagLine::Host { hostname_port, timestamp } => GFlagLineView::Host {
                hostname_port: hostname_port@,
                timestamp,
            },
            GFlagLine::Flag { name, value } => GFlagLineView::Flag { name: name@, value: value@ },
        }
    }
}

/// The models of a sequence of lines.
pub open spec fn line_views(lines: Seq<GFlagLine>) -> Seq<GFlagLineView> {
    lines.map_values(|l: GFlagLine| l@)
}

/// Why the flags of a snapshot cannot be shown.
#[derive(Clone, Copy, Debug, PartialEq, Eq, Structural)]
pub enum FilterError {
    /// A filter is not a regular expression that can be compiled.
    InvalidPattern,
}

/// Whether the row `i` is among those to be shown.
pub open spec fn selected_at(selected: Seq<bool>, i: int) -> bool {
    0 <= i < selected.len() && selected[i]
}

/// The endpoint of the last row shown among the first `n` rows, or the empty text where none
/// of them is shown.
pub open spec fn last_host_shown(rows: Seq<StoredGFlagsView>, selected: Seq<bool>, n: int) -> Seq<
    char,
>
    decreases n,
{
    if n <= 0 {
        Seq::empty()
    } else if selected_at(selected, n - 1) {
        rows[n - 1].hostname_port
    } else {
        last_host_shown(rows, selected, n - 1)
    }
}

/// What is shown of the first `n` rows: a line for each selected row, in their order, and a
/// heading before each that is of another endpoint than the row shown before it.
pub open spec fn shown_flag_lines(rows: Seq<StoredGFlagsView>, selected: Seq<bool>, n: int) -> Seq<
    GFlagLineView,
>
    decreases n,
{
    if n <= 0 {
        Seq::empty()
    } else {
        let front = shown_flag_lines(rows, selected, n - 1);
        let row = rows[n - 1];
        let flag = GFlagLineView::Flag { name: row.gflag_name, value: row.gflag_value };
        if !selected_at(selected, n - 1) {
            front
        } else if row.hostname_port != last_host_shown(rows, selected, n - 1) {
            front.push(
                GFlagLineView::Host { hostname_port: row.hostname_port, timestamp: row.timestamp },
            ).push(flag)
        } else {
            front.push(flag)
        }
    }
}

/// Lays out the selected rows of a snapshot's flags: a line for each row that `selected`
/// marks, in the order of the rows, and a heading wherever the endpoint changes from one
/// shown row to the next. Rows beyond the end of `selected` are not shown.
pub fn gflag_lines(stored_gflags: &Vec<StoredGFlags>, selected: &Vec<bool>) -> (lines: Vec<
    GFlagLine,
>)
    ensures
        line_views(lines@) == shown_flag_lines(
            stored_flag_views(stored_gflags@),
            selected@,
            stored_gflags@.len() as int,
        ),
{
    let ghost rows = stored_flag_views(stored_gflags@);
    let mut lines: Vec<GFlagLine> = Vec::new();
    let mut previous_hostname_port = String::new();
    let mut i: usize = 0;
    assert(line_views(lines@) =~= shown_flag_lines(rows, selected@, 0));
    while i < stored_gflags.len()
        invariant
            i <= stored_gflags@.len(),
            rows == stored_flag_views(stored_gflags@),
            previous_hostname_port@ == last_host_shown(rows, selected@, i as int),
            line_views(lines@) == shown_flag_lines(rows, selected@, i as int),
        decreases stored_gflags@.len() - i,
    {
        let row = &stored_gflags[i];
        assert(rows[i as int] == row@);
        if i < selected.len() && selected[i] {
            let ghost before = lines@;
            if row.hostname_port != previous_hostname_port {
                lines.push(
                    GFlagLine::Host {
                        hostname_port: row.hostname_port.clone(),
                        timestamp: row.timestamp,
                    },
                );
                previous_hostname_port = row.hostname_port.clone();
                lines.push(
                    GFlagLine::Flag { name: row.gflag_name.clone(), value: row.gflag_value.clone() },
                );
                assert(line_views(lines@) =~= line_views(before).push(
                    GFlagLineView::Host {
                        hostname_port: row@.hostname_port,
                        timestamp: row@.timestamp,
                    },
                ).push(GFlagLineView::Flag { name: row@.gflag_name, value: row@.gflag_value }));
            } else {
                lines.push(
                    GFlagLine::Flag { name: row.gflag_name.clone(), value: row.gflag_value.clone() },
                );
                assert(line_views(lines@) =~= line_views(before).push(
                    GFlagLineView::Flag { name: row@.gflag_name, value: row@.gflag_value },
                ));
            }
        }
        i += 1;
    }
    lines
}

/// Which rows the two filters let through: those whose endpoint matches `hostname_filter`
/// and whose flag name matches `stat_name_filter`.
pub open spec fn filtered(
    rows: Seq<StoredGFlagsView>,
    hostname_filter: Seq<char>,
    stat_name_filter: Seq<char>,
) -> Seq<bool> {
    Seq::new(
        rows.len(),
        |i: int|
            regex_is_match(hostname_filter, rows[i].hostname_port) && regex_is_match(
                stat_name_filter,
                rows[i].gflag_name,
            ),
    )
}

/// What is to be shown of the flags of a snapshot: the rows whose endpoint matches the
/// regular expression `hostname_filter` and whose flag name matches `stat_name_filter`, laid
/// out as `gflag_lines` does. Fails exactly where the snapshot holds a row and a filter
/// does not compile: a snapshot without flags is shown whatever the filters are.
pub fn print_gflags_data(
    stored_gflags: &Vec<StoredGFlags>,
    hostname_filter: &str,
    stat_name_filter: &str,
) -> (r: Result<Vec<GFlagLine>, FilterError>)
    ensures
        stored_gflags@.len() == 0 ==> r is Ok,
        stored_gflags@.len() > 0 ==> (r is Ok <==> regex_accepts(hostname_filter@)
            && regex_accepts(stat_name_filter@)),
        r matches Ok(lines) ==> line_views(lines@) == shown_flag_lines(
            stored_flag_views(stored_gflags@),
            filtered(stored_flag_views(stored_gflags@), hostname_filter@, stat_name_filter@),
            stored_gflags@.len() as int,
        ),
        r matches Err(e) ==> e == FilterError::InvalidPattern,
{
    let ghost rows = stored_flag_views(stored_gflags@);
    let ghost expected = filtered(rows, hostname_filter@, stat_name_filter@);
    let mut selected: Vec<bool> = Vec::new();
    let mut i: usize = 0;
    while i < stored_gflags.len()
        invariant
            i <= stored_gflags@.len(),
            rows == stored_flag_views(stored_gflags@),
            expected == filtered(rows, hostname_filter@, stat_name_filter@),
            selected@ == expected.take(i as int),
            i > 0 ==> regex_accepts(hostname_filter@) && regex_accepts(stat_name_filter@),
        decreases stored_gflags@.len() - i,
    {
        let row = &stored_gflags[i];
        assert(rows[i as int] == row@);
        let host_matches = match is_match_of(hostname_filter, row.hostname_port.as_str()) {
            Ok(b) => b,
            Err(_) => {
                return Err(FilterError::InvalidPattern);
            },
        };
        let name_matches = match is_match_of(stat_name_filter, row.gflag_name.as_str()) {
            Ok(b) => b,
            Err(_) => {
                return Err(FilterError::InvalidPattern);
            },
        };
        selected.push(host_matches && name_matches);
        assert(selected@ =~= expected.take(i + 1));
        i += 1;
    }
    assert(expected.take(expected.len() as int) =~= expected);
    Ok(gflag_lines(stored_gflags, &selected))
}

} // verus!
