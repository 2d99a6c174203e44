//! Pairing generated masks with reference masks by the key in their file names, and
//! the grouping of the report.
use vstd::prelude::*;
use crate::file_name::NameKey;
use crate::text::str_equals;

verus! {

/// How the statistics report is grouped.
#[derive(Debug, Clone, Copy, PartialEq, Eq, Structural)]
pub enum StatisticBase {
    Background,
    Foreground,
    Position,
    Default,
    /// Any other grouping; the report is refused.
    Unsupported,
}

pub open spec fn spec_statistic_base(s: Seq<char>) -> StatisticBase {
    if s == "background"@ {
        StatisticBase::Background
    } else if s == "foreground"@ {
        StatisticBase::Foreground
    } else if s == "position"@ {
        StatisticBase::Position
    } else if s == "default"@ {
        StatisticBase::Default
    } else {
        StatisticBase::Unsupported
    }
}

/// The grouping that the `base` setting names.
pub fn statistic_base(base: &str) -> (r: StatisticBase)
    ensures
        r == spec_statistic_base(base@),
{
    if str_equals(base, "background") {
        StatisticBase::Background
    } else if str_equals(base, "foreground") {
        StatisticBase::Foreground
    } else if str_equals(base, "position") {
        StatisticBase::Position
    } else if str_equals(base, "default") {
        StatisticBase::Default
    } else {
        StatisticBase::Unsupported
    }
}

/// What a source mask is compared with.
#[derive(Debug, Clone, Copy, PartialEq, Eq, Structural)]
pub enum SourceMatch {
    /// The source's file name carries no key; it is skipped.
    NoKey,
    /// No target has the source's key.
    NoTarget,
    /// The target at this index, the last one with the source's key.
    Target(usize),
}

/// The index of the last target whose key is `key` among the first `n` targets.
pub open spec fn last_with_key(targets: Seq<Option<NameKey>>, key: NameKey, n: int) -> Option<
    usize,
>
    decreases n,
{
    if n <= 0 {
        None
    } else if targets[n - 1] == Some(key) {
        Some((n - 1) as usize)
    } else {
        last_with_key(targets, key, n - 1)
    }
}

/// The target a key selects is the last one carrying that key; when none is
/// selected, no target carries it.
pub proof fn lemma_last_with_key(targets: Seq<Option<NameKey>>, key: NameKey, n: int)
    requires
        0 <= n <= targets.len(),
        targets.len() <= usize::MAX,
    ensures
        last_with_key(targets, key, n) matches Some(j) ==> {
            &&& j < n
            &&& targets[j as int] == Some(key)
            &&& forall|l: int| j < l < n ==> #[trigger] targets[l] != Some(key)
        },
        last_with_key(targets, key, n) is None ==> forall|l: int|
            0 <= l < n ==> #[trigger] targets[l] != Some(key),
    decreases n,
{
    if n > 0 && targets[n - 1] != Some(key) {
        lemma_last_with_key(targets, key, n - 1);
    }
}

pub open spec fn spec_source_match(targets: Seq<Option<NameKey>>, source: Option<NameKey>) -> SourceMatch {
    match source {
        None => SourceMatch::NoKey,
        Some(k) => match last_with_key(targets, k, targets.len() as int) {
            None => SourceMatch::NoTarget,
            Some(j) => SourceMatch::Target(j),
        },
    }
}

/// A source is paired with a target only when the target carries exactly the source's
/// key, and then with the last such target; a source with a key is left without a
/// target only when no target carries its key; a source without a key is skipped.
pub proof fn lemma_source_match_exact(targets: Seq<Option<NameKey>>, source: Option<NameKey>)
    requires
        targets.len() <= usize::MAX,
    ensures
        spec_source_match(targets, source) matches SourceMatch::Target(j) ==> {
            &&& j < targets.len()
            &&& source is Some
            &&& targets[j as int] == source
            &&& forall|l: int| j < l < targets.len() ==> #[trigger] targets[l] != source
        },
        spec_source_match(targets, source) == SourceMatch::NoTarget <==> (source is Some && forall|
            l: int,
        |
            0 <= l < targets.len() ==> #[trigger] targets[l] != source),
        spec_source_match(targets, source) == SourceMatch::NoKey <==> source is None,
{
    if let Some(k) = source {
        lemma_last_with_key(targets, k, targets.len() as int);
        if last_with_key(targets, k, targets.len() as int) is Some {
            let j = last_with_key(targets, k, targets.len() as int).unwrap();
            assert(targets[j as int] == source);
        }
    }
}

fn same_key(a: &NameKey, b: &NameKey) -> (r: bool)
    ensures
        r == (*a == *b),
{
    a.0 == b.0 && a.1 == b.1 && a.2 == b.2
}

fn find_target(targets: &Vec<Option<NameKey>>, key: &NameKey) -> (r: Option<usize>)
    ensures
        r == last_with_key(targets@, *key, targets@.len() as int),
{
    let mut n = targets.len();
    while n > 0
        invariant
            n <= targets@.len(),
            forall|j: int| n <= j < targets@.len() ==> #[trigger] targets@[j] != Some(*key),
            last_with_key(targets@, *key, targets@.len() as int) == last_with_key(
                targets@,
                *key,
                n as int,
            ),
        decreases n,
    {
        match &targets[n - 1] {
            Some(k) => {
                if same_key(k, key) {
                    return Some(n - 1);
                }
            },
            None => {},
        }
        n = n - 1;
    }
    None
}

/// Pairs each source mask with the last target mask that has the same key (a later
/// target with a key replaces an earlier one, as in a map filled in order).
pub fn match_sources(targets: &Vec<Option<NameKey>>, sources: &Vec<Option<NameKey>>) -> (r: Vec<
    SourceMatch,
>)
    ensures
        r@.len() == sources@.len(),
        forall|i: int|
            0 <= i < sources@.len() ==> #[trigger] r@[i] == spec_source_match(
                targets@,
                sources@[i],
            ),
        forall|i: int|
            0 <= i < sources@.len() ==> (#[trigger] r@[i] matches SourceMatch::Target(j) ==> j
                < targets@.len() && targets@[j as int] == sources@[i]),
        forall|i: int|
            0 <= i < sources@.len() ==> (#[trigger] r@[i] == SourceMatch::NoTarget <==> (
            sources@[i] is Some && forall|l: int|
                0 <= l < targets@.len() ==> targets@[l] != sources@[i])),
{
    let mut result: Vec<SourceMatch> = Vec::new();
    let mut i: usize = 0;
    while i < sources.len()
        invariant
            i <= sources@.len(),
            result@.len() == i,
            forall|m: int|
                0 <= m < i ==> #[trigger] result@[m] == spec_source_match(targets@, sources@[m]),
        decreases sources@.len() - i,
    {
        let m = match &sources[i] {
            None => SourceMatch::NoKey,
            Some(k) => match find_target(targets, k) {
                None => SourceMatch::NoTarget,
                Some(j) => SourceMatch::Target(j),
            },
        };
        result.push(m);
        i = i + 1;
    }
    proof {
        assert(targets@.len() == targets.len());
        assert forall|i: int| 0 <= i < sources@.len() implies (result@[i] == spec_source_match(
            targets@,
            sources@[i],
        )) by {}
        assert forall|i: int| 0 <= i < sources@.len() implies ({
            &&& result@[i] matches SourceMatch::Target(j) ==> j < targets@.len()
                && targets@[j as int] == sources@[i]
            &&& (result@[i] == SourceMatch::NoTarget <==> (sources@[i] is Some && forall|l: int|
                0 <= l < targets@.len() ==> targets@[l] != sources@[i]))
        }) by {
            lemma_source_match_exact(targets@, sources@[i]);
        }
    }
    result
}

/// A matched source is reported unless a later matched source has the same key (a
/// later result replaces an earlier one, as in a map filled in order).
pub open spec fn is_reported(sources: Seq<Option<NameKey>>, matches: Seq<SourceMatch>, i: int) -> bool {
    &&& matches[i] is Target
    &&& forall|j: int|
        i < j < sources.len() ==> !(#[trigger] matches[j] is Target && sources[j] == sources[i])
}

/// The indices of the sources whose results are reported, in increasing order.
pub fn reported_sources(sources: &Vec<Option<NameKey>>, matches: &Vec<SourceMatch>) -> (r: Vec<
    usize,
>)
    requires
        matches@.len() == sources@.len(),
    ensures
        forall|k: int| 0 <= k < r@.len() ==> #[trigger] r@[k] < sources@.len(),
        forall|k: int| 0 <= k < r@.len() ==> is_reported(sources@, matches@, #[trigger] r@[k] as int),
        forall|i: int|
            0 <= i < sources@.len() && is_reported(sources@, matches@, i) ==> r@.contains(
                i as usize,
            ),
        forall|k: int, l: int| 0 <= k < l < r@.len() ==> #[trigger] r@[k] < #[trigger] r@[l],
{
    let n = sources.len();
    let mut result: Vec<usize> = Vec::new();
    let mut i: usize = 0;
    while i < n
        invariant
            n == sources@.len(),
            n == matches@.len(),
            i <= n,
            forall|k: int| 0 <= k < result@.len() ==> #[trigger] result@[k] < i,
            forall|k: int|
                0 <= k < result@.len() ==> is_reported(
                    sources@,
                    matches@,
                    #[trigger] result@[k] as int,
                ),
            forall|m: int|
                0 <= m < i && is_reported(sources@, matches@, m) ==> result@.contains(m as usize),
            forall|k: int, l: int|
                0 <= k < l < result@.len() ==> #[trigger] result@[k] < #[trigger] result@[l],
        decreases n - i,
    {
        let reported = match matches[i] {
            SourceMatch::Target(_) => {
                let mut later = false;
                let mut j: usize = i + 1;
                while j < n
                    invariant
                        n == sources@.len(),
                        n == matches@.len(),
                        i < j <= n,
                        !later ==> forall|jj: int|
                            i < jj < j ==> !(#[trigger] matches@[jj] is Target && sources@[jj]
                                == sources@[i as int]),
                        later ==> exists|jj: int|
                            i < jj < n && #[trigger] matches@[jj] is Target && sources@[jj]
                                == sources@[i as int],
                    decreases n - j,
                {
                    if !later {
                        let same = match (&sources[j], &sources[i]) {
                            (Some(a), Some(b)) => same_key(a, b),
                            (None, None) => true,
                            _ => false,
                        };
                        let target = match matches[j] {
                            SourceMatch::Target(_) => true,
                            _ => false,
                        };
                        if same && target {
                            later = true;
                        }
                    }
                    j = j + 1;
                }
                !later
            },
            _ => false,
        };
        if reported {
            let ghost before = result@;
            result.push(i);
            assert forall|m: int|
                0 <= m < i + 1 && is_reported(sources@, matches@, m) implies result@.contains(
                m as usize,
            ) by {
                if m == i {
                    assert(result@[before.len() as int] == i);
                } else {
                    let k = choose|k: int| 0 <= k < before.len() && before[k] == m as usize;
                    assert(result@[k] == m as usize);
                }
            }
        } else {
            let ghost before = result@;
            assert forall|m: int|
                0 <= m < i + 1 && is_reported(sources@, matches@, m) implies result@.contains(
                m as usize,
            ) by {
                if m == i as int {
                    assert(false);
                }
            }
        }
        i = i + 1;
    }
    result
}

} // verus!
