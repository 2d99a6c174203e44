//! Preparing source images: which formats are accepted, and the numbering under
//! which converted sources are saved.
use vstd::prelude::*;
use crate::config::Preprocess;
use crate::text::{
    ascii_lower, ascii_lowercase, decimal_digits, decimal_string, is_ascii_digit,
    lemma_decimal_digits_value, lemma_decimal_round_trip, lowercase_equals, parse_unsigned,
    str_equals,
};

verus! {

/// Target formats that sources can be converted to (compared after ASCII lower-casing).
pub open spec fn spec_supported_target_format(s: Seq<char>) -> bool {
    let t = ascii_lowercase(s);
    t == "jpg"@ || t == "jpeg"@ || t == "png"@ || t == "webp"@
}

/// Whether a target format is supported does not depend on its ASCII case.
pub proof fn lemma_target_format_ignores_case(s: Seq<char>)
    ensures
        spec_supported_target_format(ascii_lowercase(s)) == spec_supported_target_format(s),
{
    assert(ascii_lowercase(ascii_lowercase(s)) =~= ascii_lowercase(s)) by {
        assert forall|i: int| 0 <= i < s.len() implies #[trigger] ascii_lower(ascii_lower(s[i]))
            == ascii_lower(s[i]) by {
            let c = s[i];
            if 'A' <= c && c <= 'Z' {
                assert(ascii_lower(c) as u32 == (c as u32) + 32);
            }
        }
    }
}

/// Whether sources can be converted to `target_format` (`jpg`, `jpeg`, `png` or `webp`,
/// in any ASCII case).
pub fn check_supported_target_format(target_format: &str) -> (r: bool)
    ensures
        r == spec_supported_target_format(target_format@),
{
    lowercase_equals(target_format, "jpg") || lowercase_equals(target_format, "jpeg")
        || lowercase_equals(target_format, "png") || lowercase_equals(target_format, "webp")
}

/// Source file extensions that are recognised as images (compared as written).
pub open spec fn spec_supported_image_format(extension: Seq<char>) -> bool {
    extension == "jpg"@ || extension == "png"@ || extension == "jpeg"@ || extension == "webp"@
        || extension == "gif"@
}

/// Whether a source file extension is a recognised image format. Sources with other
/// extensions are still processed; they only draw a warning.
pub fn is_supported_image_format(extension: &str) -> (r: bool)
    ensures
        r == spec_supported_image_format(extension@),
{
    str_equals(extension, "jpg") || str_equals(extension, "png") || str_equals(extension, "jpeg")
        || str_equals(extension, "webp") || str_equals(extension, "gif")
}

/// The file name `<name>.<target format>` under which a converted source is saved.
pub open spec fn spec_converted_file_name(name: nat, target_format: Seq<char>) -> Seq<char> {
    decimal_digits(name) + seq!['.'] + target_format
}

/// The number `name` occupies the converted file name up to its first `.`: that text
/// contains no `.`, has `name.len()` characters, and reads back as `name`.
proof fn lemma_converted_name_prefix(name: usize, target_format: Seq<char>)
    ensures
        ({
            let s = spec_converted_file_name(name as nat, target_format);
            let k = decimal_digits(name as nat).len() as int;
            &&& 0 <= k < s.len()
            &&& s[k] == '.'
            &&& forall|i: int| 0 <= i < k ==> #[trigger] s[i] != '.'
            &&& parse_unsigned(s.take(k), usize::MAX as nat) == Some(name as nat)
            &&& s.skip(k + 1) == target_format
        }),
{
    let d = decimal_digits(name as nat);
    let s = spec_converted_file_name(name as nat, target_format);
    let k = d.len() as int;
    lemma_decimal_digits_value(name as nat);
    lemma_decimal_round_trip(name as nat, usize::MAX as nat);
    assert(s.take(k) =~= d);
    assert(s.skip(k + 1) =~= target_format);
    assert forall|i: int| 0 <= i < k implies #[trigger] s[i] != '.' by {
        assert(s[i] == d[i]);
        assert(is_ascii_digit(d[i]));
    }
}

/// The text of a converted file name before its first `.` reads back, as `str::parse`
/// reads it, as the source's number, and the text after that `.` is the target format.
pub proof fn lemma_converted_name_reads_back(name: usize, target_format: Seq<char>)
    ensures
        exists|k: int|
            #![trigger spec_converted_file_name(name as nat, target_format).take(k)]
            0 <= k < spec_converted_file_name(name as nat, target_format).len()
                && spec_converted_file_name(name as nat, target_format)[k] == '.' && (forall|i: int|
                0 <= i < k ==> #[trigger] spec_converted_file_name(name as nat, target_format)[i]
                    != '.') && parse_unsigned(
                spec_converted_file_name(name as nat, target_format).take(k),
                usize::MAX as nat,
            ) == Some(name as nat) && spec_converted_file_name(name as nat, target_format).skip(
                k + 1,
            ) == target_format,
{
    lemma_converted_name_prefix(name, target_format);
    let k = decimal_digits(name as nat).len() as int;
    assert(spec_converted_file_name(name as nat, target_format).take(k)
        == spec_converted_file_name(name as nat, target_format).take(k));
}

/// Distinct numbers, or distinct target formats, give distinct converted file names,
/// so no converted source overwrites another.
pub proof fn lemma_converted_names_distinct(n1: usize, n2: usize, f1: Seq<char>, f2: Seq<char>)
    ensures
        spec_converted_file_name(n1 as nat, f1) == spec_converted_file_name(n2 as nat, f2) ==> n1
            == n2 && f1 == f2,
{
    lemma_converted_name_prefix(n1, f1);
    lemma_converted_name_prefix(n2, f2);
    let s1 = spec_converted_file_name(n1 as nat, f1);
    let s2 = spec_converted_file_name(n2 as nat, f2);
    let k1 = decimal_digits(n1 as nat).len() as int;
    let k2 = decimal_digits(n2 as nat).len() as int;
    if s1 == s2 {
        if k1 < k2 {
            assert(s2[k1] != '.');
        } else if k2 < k1 {
            assert(s1[k2] != '.');
        }
        assert(k1 == k2);
    }
}

/// The file name under which a source converted to `target_format` is saved as
/// number `name`.
pub fn converted_file_name(name: usize, target_format: &str) -> (r: String)
    ensures
        r@ == spec_converted_file_name(name as nat, target_format@),
{
    proof {
        reveal_strlit(".");
    }
    let mut r = decimal_string(name);
    r.append(".");
    r.append(target_format);
    assert(r@ =~= spec_converted_file_name(name as nat, target_format@));
    r
}

/// What preprocessing does with the two source directories.
#[derive(Debug, Clone, Copy, PartialEq, Eq, Structural)]
pub enum PreprocessPlan {
    /// Cloning sources is asked for, which the tool does not implement.
    CloneSources,
    /// Convert and renumber the images of both source directories.
    ReformatSources,
    /// One of the source paths is not a directory; nothing is done.
    InvalidSourcePath,
}

/// Decides what preprocessing does, given the `[preprocess]` section and whether the
/// foreground and background paths are directories.
pub fn preprocess(
    config: &Preprocess,
    foreground_is_dir: bool,
    background_is_dir: bool,
) -> (r: PreprocessPlan)
    ensures
        config.clone ==> r == PreprocessPlan::CloneSources,
        !config.clone && foreground_is_dir && background_is_dir ==> r
            == PreprocessPlan::ReformatSources,
        !config.clone && !(foreground_is_dir && background_is_dir) ==> r
            == PreprocessPlan::InvalidSourcePath,
{
    if config.clone {
        PreprocessPlan::CloneSources
    } else if foreground_is_dir && background_is_dir {
        PreprocessPlan::ReformatSources
    } else {
        PreprocessPlan::InvalidSourcePath
    }
}

/// Progress through the files of one source directory: each file is converted and
/// saved under the next free number, and a number whose save fails is skipped.
#[derive(Debug, Clone, Copy, PartialEq, Eq, Structural)]
pub struct RenameRun {
    /// How many files the directory holds.
    pub file_count: usize,
    /// The file being converted.
    pub file: usize,
    /// The number tried next as the new file name.
    pub name: usize,
}

/// The next thing a renaming run does.
#[derive(Debug, Clone, Copy, PartialEq, Eq, Structural)]
pub enum RenameStep {
    /// Convert file number `file` and save it as `<name>.<target format>`.
    Rename { file: usize, name: usize },
    /// Every file has been converted.
    Finished,
}

/// Starts renumbering a directory of `file_count` files into `target_format`; nothing
/// happens when the target format is not supported.
pub fn reformat_then_rename_all(file_count: usize, target_format: &str) -> (r: Option<RenameRun>)
    ensures
        r is Some <==> spec_supported_target_format(target_format@),
        r matches Some(run) ==> run == (RenameRun { file_count, file: 0, name: 0 }),
{
    if !check_supported_target_format(target_format) {
        return None;
    }
    Some(RenameRun { file_count, file: 0, name: 0 })
}

pub open spec fn spec_next_step(run: RenameRun) -> RenameStep {
    if run.file < run.file_count {
        RenameStep::Rename { file: run.file, name: run.name }
    } else {
        RenameStep::Finished
    }
}

/// The run after the current conversion attempt succeeded (`renamed`) or failed:
/// either way the number is used up; on success the run moves to the next file.
pub open spec fn spec_record(run: RenameRun, renamed: bool) -> RenameRun {
    RenameRun {
        file_count: run.file_count,
        file: if renamed {
            (run.file + 1) as usize
        } else {
            run.file
        },
        name: (run.name + 1) as usize,
    }
}

impl RenameRun {
    /// What to do next.
    pub fn next_step(&self) -> (s: RenameStep)
        ensures
            s == spec_next_step(*self),
    {
        if self.file < self.file_count {
            RenameStep::Rename { file: self.file, name: self.name }
        } else {
            RenameStep::Finished
        }
    }

    /// Records the outcome of the attempt that `next_step` asked for.
    pub fn record(&mut self, renamed: bool)
        requires
            old(self).file < old(self).file_count,
            old(self).name < usize::MAX,
        ensures
            *final(self) == spec_record(*old(self), renamed),
    {
        if renamed {
            self.file = self.file + 1;
        }
        self.name = self.name + 1;
    }
}

/// The attempts of a run can be replayed from the outcomes: each attempt uses the
/// run's current file and number, within bounds.
pub open spec fn outcomes_allowed(run: RenameRun, outcomes: Seq<bool>) -> bool
    decreases outcomes.len(),
{
    if outcomes.len() == 0 {
        true
    } else {
        &&& run.file < run.file_count
        &&& run.name < usize::MAX
        &&& outcomes_allowed(spec_record(run, outcomes[0]), outcomes.drop_first())
    }
}

/// The (file, number) pairs under which files were saved, for a sequence of outcomes.
pub open spec fn saved_names(run: RenameRun, outcomes: Seq<bool>) -> Seq<(int, int)>
    decreases outcomes.len(),
{
    if outcomes.len() == 0 {
        Seq::empty()
    } else {
        let rest = saved_names(spec_record(run, outcomes[0]), outcomes.drop_first());
        if outcomes[0] {
            seq![(run.file as int, run.name as int)] + rest
        } else {
            rest
        }
    }
}

/// Over a whole run, the files are saved in order, one after another, each exactly
/// once, and under strictly increasing numbers no smaller than the run's next number,
/// so no two files get the same name.
pub proof fn lemma_saved_names_distinct(run: RenameRun, outcomes: Seq<bool>)
    requires
        outcomes_allowed(run, outcomes),
    ensures
        forall|i: int|
            #![trigger saved_names(run, outcomes)[i]]
            0 <= i < saved_names(run, outcomes).len() ==> saved_names(run, outcomes)[i].0
                == run.file + i && saved_names(run, outcomes)[i].1 >= run.name,
        forall|i: int, j: int|
            #![trigger saved_names(run, outcomes)[i], saved_names(run, outcomes)[j]]
            0 <= i < j < saved_names(run, outcomes).len() ==> saved_names(run, outcomes)[i].1
                < saved_names(run, outcomes)[j].1,
    decreases outcomes.len(),
{
    if outcomes.len() > 0 {
        let next = spec_record(run, outcomes[0]);
        lemma_saved_names_distinct(next, outcomes.drop_first());
        let rest = saved_names(next, outcomes.drop_first());
        let all = saved_names(run, outcomes);
        if outcomes[0] {
            assert(all == seq![(run.file as int, run.name as int)] + rest);
            assert(all[0] == (run.file as int, run.name as int));
            assert(next.file == run.file + 1);
            assert(next.name == run.name + 1);
            assert forall|i: int| 0 <= i < all.len() implies all[i].0 == run.file + i
                && all[i].1 >= run.name by {
                if i > 0 {
                    assert(all[i] == rest[i - 1]);
                }
            }
            assert forall|i: int, j: int| 0 <= i < j < all.len() implies #[trigger] all[i].1
                < #[trigger] all[j].1 by {
                assert(rest[j - 1].1 >= next.name);
                assert(all[j] == rest[j - 1]);
                if i > 0 {
                    assert(all[i] == rest[i - 1]);
                }
            }
        } else {
            assert(all == rest);
            assert(next.file == run.file);
            assert(next.name == run.name + 1);
        }
    }
}

} // verus!
