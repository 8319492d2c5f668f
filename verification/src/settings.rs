//! The settings of a collection round: which hosts and ports to visit and how many visits to
//! make at a time, settled once from what the user gave, what the environment holds and what
//! is built in.

use vstd::prelude::*;
use vstd::string::*;

verus! {

/// Where the value of a setting comes from.
#[derive(Clone, Copy, Debug, PartialEq, Eq, Structural)]
pub enum SettingSource {
    /// The user gave it as an argument.
    Argument,
    /// The environment holds it.
    Environment,
    /// Neither: the built-in default is used.
    Default,
}

/// Settles one setting: an argument wins over the environment, and the environment over the
/// built-in default.
pub fn resolve(argument: Option<String>, environment: Option<String>, default: &str) -> (settled: (
    String,
    SettingSource,
))
    ensures
        argument matches Some(a) ==> settled.0 == a && settled.1 == SettingSource::Argument,
        argument is None ==> (environment matches Some(e) ==> settled.0 == e && settled.1
            == SettingSource::Environment),
        argument is None && environment is None ==> settled.0@ == default@ && settled.1
            == SettingSource::Default,
{
    match argument {
        Some(a) => (a, SettingSource::Argument),
        None => match environment {
            Some(e) => (e, SettingSource::Environment),
            None => (String::from_str(default), SettingSource::Default),
        },
    }
}

/// Whether a setting is to be remembered for the next run: what came from an argument or from
/// the environment is, a default is not.
pub fn remembered(source: SettingSource) -> (keep: bool)
    ensures
        keep == (source != SettingSource::Default),
{
    match source {
        SettingSource::Default => false,
        _ => true,
    }
}

/// The pieces of a text between its commas, in their order. A text without a comma is one
/// piece, and so is the empty text; a comma at either end has an empty piece beside it.
pub open spec fn pieces(text: Seq<char>) -> Seq<Seq<char>>
    decreases text.len(),
{
    if text.len() == 0 {
        seq![Seq::empty()]
    } else {
        let front = pieces(text.drop_last());
        if text.last() == ',' {
            front.push(Seq::empty())
        } else {
            front.drop_last().push(front.last().push(text.last()))
        }
    }
}

/// Splits a list of names at its commas.
pub fn split_list(text: &str) -> (list: Vec<String>)
    ensures
        crate::text::texts(list@) == pieces(text@),
{
    let count = text.unicode_len();
    let mut list: Vec<String> = Vec::new();
    let mut start: usize = 0;
    let mut i: usize = 0;
    proof {
        assert(text@.take(0) =~= Seq::<char>::empty());
        assert(crate::text::texts(list@).push(text@.subrange(0, 0)) =~= pieces(text@.take(0)));
    }
    while i < count
        invariant
            count == text@.len(),
            start <= i <= count,
            crate::text::texts(list@).push(text@.subrange(start as int, i as int)) == pieces(
                text@.take(i as int),
            ),
        decreases count - i,
    {
        let ghost done = crate::text::texts(list@);
        let ghost piece = text@.subrange(start as int, i as int);
        proof {
            assert(text@.take(i + 1).drop_last() =~= text@.take(i as int));
            assert(text@.take(i + 1).last() == text@[i as int]);
            assert(done.push(piece).drop_last() =~= done);
        }
        if text.get_char(i) == ',' {
            let ghost before = list@;
            list.push(String::from_str(text.substring_char(start, i)));
            start = i + 1;
            proof {
                assert(crate::text::texts(list@) =~= done.push(piece));
                assert(text@.subrange(start as int, i + 1) =~= Seq::<char>::empty());
            }
        } else {
            proof {
                assert(text@.subrange(start as int, i + 1) =~= piece.push(text@[i as int]));
            }
        }
        i += 1;
    }
    let ghost done = crate::text::texts(list@);
    list.push(String::from_str(text.substring_char(start, count)));
    proof {
        assert(text@.take(count as int) =~= text@);
        assert(crate::text::texts(list@) =~= done.push(text@.subrange(start as int, count as int)));
    }
    list
}

/// The settings of a collection round.
pub struct CollectorSettings {
    pub hosts: Vec<String>,
    pub ports: Vec<String>,
    /// The number of endpoints that are visited at a time: at least one.
    pub parallel: usize,
}

/// Why settings are refused.
#[derive(Clone, Copy, Debug, PartialEq, Eq, Structural)]
pub enum SettingsError {
    /// No endpoint may be visited at a time: the round could not make a single visit.
    NoParallelism,
}

impl CollectorSettings {
    /// Makes the settings of a round from the list of hosts and the list of ports, each
    /// separated by commas, and the number of visits to make at a time, which must be at
    /// least one.
    pub fn new(hosts: &str, ports: &str, parallel: usize) -> (r: Result<
        CollectorSettings,
        SettingsError,
    >)
        ensures
            parallel == 0 ==> r == Err::<CollectorSettings, SettingsError>(
                SettingsError::NoParallelism,
            ),
            parallel >= 1 ==> r is Ok && r->Ok_0.parallel == parallel && crate::text::texts(
                r->Ok_0.hosts@,
            ) == pieces(hosts@) && crate::text::texts(r->Ok_0.ports@) == pieces(ports@),
    {
        if parallel == 0 {
            return Err(SettingsError::NoParallelism);
        }
        Ok(CollectorSettings { hosts: split_list(hosts), ports: split_list(ports), parallel })
    }
}

} // verus!
