//! Which foreground/background pairs a generation run composes, in which order and
//! at which positions.
use vstd::prelude::*;
use vstd::arithmetic::div_mod::{
    lemma_fundamental_div_mod, lemma_fundamental_div_mod_converse, lemma_mod_pos_bound,
};
use crate::chance::shuffle;
use crate::position::{
    ROIPosition, check_position, random_roi_position, spec_check_position, spec_position_code,
};
use crate::text::str_equals;

verus! {

/// How the foregrounds and backgrounds are combined.
#[derive(Debug, Clone, Copy, PartialEq, Eq, Structural)]
pub enum GenerateMode {
    /// Every foreground with every background.
    All,
    /// Walk both lists in step, each wrapping around, for a given number of images.
    Loop,
    /// Draw a foreground and a background at random, for a given number of images.
    Random,
}

/// Where each foreground is placed.
#[derive(Debug, Clone, Copy, PartialEq, Eq, Structural)]
pub enum PositionChoice {
    /// A position drawn at random for every image.
    Random,
    /// The same position for every image.
    Fixed(ROIPosition),
}

/// Why a generation run composes nothing.
#[derive(Debug, Clone, Copy, PartialEq, Eq, Structural)]
pub enum GenerateError {
    /// The mode is none of `all`, `loop` and `random`.
    UnsupportedMode,
    /// The foreground position is neither `random` nor the name of a position.
    InvalidPosition,
}

/// One composite to make: indices into the foreground and background lists, and
/// the position of the foreground.
#[derive(Debug, Clone, Copy, PartialEq, Eq, Structural)]
pub struct Job {
    pub foreground: usize,
    pub background: usize,
    pub position: ROIPosition,
}

pub open spec fn spec_generate_mode(s: Seq<char>) -> Option<GenerateMode> {
    if s == "all"@ {
        Some(GenerateMode::All)
    } else if s == "loop"@ {
        Some(GenerateMode::Loop)
    } else if s == "random"@ {
        Some(GenerateMode::Random)
    } else {
        None
    }
}

/// The generation mode named by a configuration string.
pub fn parse_generate_mode(mode: &str) -> (r: Option<GenerateMode>)
    ensures
        r == spec_generate_mode(mode@),
{
    if str_equals(mode, "all") {
        Some(GenerateMode::All)
    } else if str_equals(mode, "loop") {
        Some(GenerateMode::Loop)
    } else if str_equals(mode, "random") {
        Some(GenerateMode::Random)
    } else {
        None
    }
}

pub open spec fn spec_position_choice(s: Seq<char>) -> Option<PositionChoice> {
    if s == "random"@ {
        Some(PositionChoice::Random)
    } else {
        match spec_check_position(s) {
            Some(p) => Some(PositionChoice::Fixed(p)),
            None => None,
        }
    }
}

/// `random`, or the position that a configuration string names.
pub fn parse_position_choice(foreground_position: String) -> (r: Option<PositionChoice>)
    ensures
        r == spec_position_choice(foreground_position@),
{
    if str_equals(foreground_position.as_str(), "random") {
        Some(PositionChoice::Random)
    } else {
        match check_position(foreground_position) {
            Some(p) => Some(PositionChoice::Fixed(p)),
            None => None,
        }
    }
}

/// Every (foreground, background) index pair, foreground-major:
/// `(0, 0), (0, 1), .., (0, b - 1), (1, 0), ..`.
pub open spec fn all_pairs(f: nat, b: nat) -> Seq<(int, int)>
    decreases f,
{
    if f == 0 {
        Seq::empty()
    } else {
        all_pairs((f - 1) as nat, b) + Seq::new(b, |j: int| ((f - 1) as int, j))
    }
}

/// The all-pairs mode composes each foreground with each background exactly once:
/// the pair `(i, j)` is the `i * b + j`-th, and there are `f * b` of them.
pub proof fn lemma_all_pairs_enumerates(f: nat, b: nat)
    ensures
        all_pairs(f, b).len() == f * b,
        forall|i: int, j: int|
            0 <= i < f && 0 <= j < b ==> #[trigger] all_pairs(f, b)[i * b + j] == (i, j),
    decreases f,
{
    if f > 0 {
        let g = (f - 1) as nat;
        lemma_all_pairs_enumerates(g, b);
        let prefix = all_pairs(g, b);
        let row = Seq::new(b, |jj: int| (g as int, jj));
        assert(all_pairs(f, b) == prefix + row);
        assert(f * b == g * b + b) by (nonlinear_arith)
            requires
                g == f - 1,
        ;
        assert forall|i: int, j: int| 0 <= i < f && 0 <= j < b implies #[trigger] all_pairs(
            f,
            b,
        )[i * b + j] == (i, j) by {
            if i < g {
                assert(i * b + j < g * b) by (nonlinear_arith)
                    requires
                        0 <= i < g,
                        0 <= j < b,
                ;
                assert(0 <= i * b) by (nonlinear_arith)
                    requires
                        0 <= i,
                        0 <= b,
                ;
                assert(all_pairs(f, b)[i * b + j] == prefix[i * b + j]);
            } else {
                assert(i == g);
                assert(all_pairs(f, b)[i * b + j] == row[j]);
            }
        }
    } else {
        assert(f * b == 0) by (nonlinear_arith)
            requires
                f == 0,
        ;
    }
}

/// The index pairs of a list of jobs.
pub open spec fn job_pairs(jobs: Seq<Job>) -> Seq<(int, int)> {
    jobs.map_values(|j: Job| (j.foreground as int, j.background as int))
}

/// Every job's position agrees with the choice: the fixed position, or, when drawn at
/// random, any position but the bottom-right corner.
pub open spec fn positions_follow(jobs: Seq<Job>, choice: PositionChoice) -> bool {
    forall|k: int|
        0 <= k < jobs.len() ==> match choice {
            PositionChoice::Fixed(p) => #[trigger] jobs[k].position == p,
            PositionChoice::Random => spec_position_code(#[trigger] jobs[k].position) < 8,
        }
}

/// The pairs that each mode composes.
pub open spec fn pairs_follow(
    jobs: Seq<Job>,
    mode: GenerateMode,
    counter: nat,
    f: nat,
    b: nat,
) -> bool {
    match mode {
        GenerateMode::All => job_pairs(jobs) == all_pairs(f, b),
        GenerateMode::Loop => {
            &&& jobs.len() == counter
            &&& forall|k: int|
                0 <= k < jobs.len() ==> #[trigger] jobs[k].foreground == k % (f as int)
                    && jobs[k].background == k % (b as int)
        },
        GenerateMode::Random => {
            &&& jobs.len() == counter
            &&& forall|k: int|
                0 <= k < jobs.len() ==> #[trigger] jobs[k].foreground < f && jobs[k].background
                    < b
        },
    }
}

/// The run walks a foreground and a background list by index, so these must not be
/// empty (the loop and random modes index them at least once).
pub open spec fn generation_indexes_lists(mode: Seq<char>, position: Seq<char>, counter: nat) -> bool {
    &&& counter > 0
    &&& spec_position_choice(position) is Some
    &&& (spec_generate_mode(mode) == Some(GenerateMode::Loop) || spec_generate_mode(mode) == Some(
        GenerateMode::Random,
    ))
}

proof fn lemma_mod_step(k: int, n: int)
    requires
        0 <= k,
        0 < n,
    ensures
        (k + 1) % n == if k % n == n - 1 {
            0
        } else {
            k % n + 1
        },
{
    lemma_fundamental_div_mod(k, n);
    lemma_mod_pos_bound(k, n);
    let q = k / n;
    let r = k % n;
    if r == n - 1 {
        assert(k + 1 == (q + 1) * n + 0) by (nonlinear_arith)
            requires
                k == n * q + r,
                r == n - 1,
        ;
        lemma_fundamental_div_mod_converse(k + 1, n, q + 1, 0);
    } else {
        assert(k + 1 == q * n + (r + 1)) by (nonlinear_arith)
            requires
                k == n * q + r,
        ;
        lemma_fundamental_div_mod_converse(k + 1, n, q, r + 1);
    }
}

fn position_for(choice: PositionChoice) -> (p: ROIPosition)
    ensures
        match choice {
            PositionChoice::Fixed(q) => p == q,
            PositionChoice::Random => spec_position_code(p) < 8,
        },
{
    match choice {
        PositionChoice::Fixed(q) => q,
        PositionChoice::Random => random_roi_position(),
    }
}

fn all_jobs(choice: PositionChoice, f: usize, b: usize) -> (jobs: Vec<Job>)
    ensures
        job_pairs(jobs@) == all_pairs(f as nat, b as nat),
        positions_follow(jobs@, choice),
{
    let mut jobs: Vec<Job> = Vec::new();
    let mut i: usize = 0;
    assert(job_pairs(jobs@) =~= all_pairs(0, b as nat));
    while i < f
        invariant
            i <= f,
            job_pairs(jobs@) == all_pairs(i as nat, b as nat),
            positions_follow(jobs@, choice),
        decreases f - i,
    {
        let ghost start = jobs@;
        let mut j: usize = 0;
        assert(job_pairs(jobs@) =~= all_pairs(i as nat, b as nat) + Seq::new(
            0,
            |jj: int| (i as int, jj),
        ));
        while j < b
            invariant
                i < f,
                j <= b,
                job_pairs(start) == all_pairs(i as nat, b as nat),
                job_pairs(jobs@) == all_pairs(i as nat, b as nat) + Seq::new(
                    j as nat,
                    |jj: int| (i as int, jj),
                ),
                positions_follow(jobs@, choice),
            decreases b - j,
        {
            let position = position_for(choice);
            let ghost before = jobs@;
            jobs.push(Job { foreground: i, background: j, position });
            assert(job_pairs(jobs@) =~= job_pairs(before).push((i as int, j as int)));
            assert(job_pairs(jobs@) =~= all_pairs(i as nat, b as nat) + Seq::new(
                (j + 1) as nat,
                |jj: int| (i as int, jj),
            ));
            j = j + 1;
        }
        assert(all_pairs((i + 1) as nat, b as nat) == all_pairs(i as nat, b as nat) + Seq::new(
            b as nat,
            |jj: int| (i as int, jj),
        ));
        i = i + 1;
    }
    jobs
}

fn loop_jobs(choice: PositionChoice, counter: usize, f: usize, b: usize) -> (jobs: Vec<Job>)
    requires
        counter > 0 ==> f > 0 && b > 0,
    ensures
        pairs_follow(jobs@, GenerateMode::Loop, counter as nat, f as nat, b as nat),
        positions_follow(jobs@, choice),
{
    let mut jobs: Vec<Job> = Vec::new();
    let mut f_counter: usize = 0;
    let mut b_counter: usize = 0;
    let mut k: usize = 0;
    if counter == 0 {
        return jobs;
    }
    proof {
        lemma_mod_pos_bound(0, f as int);
        lemma_fundamental_div_mod_converse(0, f as int, 0, 0);
        lemma_fundamental_div_mod_converse(0, b as int, 0, 0);
    }
    while k < counter
        invariant
            f > 0,
            b > 0,
            k <= counter,
            jobs@.len() == k,
            f_counter as int == (k as int) % (f as int),
            b_counter as int == (k as int) % (b as int),
            forall|m: int|
                0 <= m < jobs@.len() ==> #[trigger] jobs@[m].foreground == m % (f as int)
                    && jobs@[m].background == m % (b as int),
            positions_follow(jobs@, choice),
        decreases counter - k,
    {
        proof {
            lemma_mod_pos_bound(k as int, f as int);
            lemma_mod_pos_bound(k as int, b as int);
            lemma_mod_step(k as int, f as int);
            lemma_mod_step(k as int, b as int);
        }
        let position = position_for(choice);
        jobs.push(Job { foreground: f_counter, background: b_counter, position });
        if f_counter == f - 1 {
            f_counter = 0;
        } else {
            f_counter = f_counter + 1;
        }
        if b_counter == b - 1 {
            b_counter = 0;
        } else {
            b_counter = b_counter + 1;
        }
        k = k + 1;
    }
    jobs
}

fn index_list(n: usize) -> (v: Vec<usize>)
    ensures
        v@.len() == n,
        forall|i: int| 0 <= i < v@.len() ==> #[trigger] v@[i] < n,
{
    let mut v: Vec<usize> = Vec::new();
    let mut i: usize = 0;
    while i < n
        invariant
            i <= n,
            v@.len() == i,
            forall|j: int| 0 <= j < v@.len() ==> #[trigger] v@[j] < n,
        decreases n - i,
    {
        v.push(i);
        i = i + 1;
    }
    v
}

/// Shuffles a list of indices below `n` into a random order of the same indices; it
/// stays a list of indices below `n`.
fn reshuffle(v: &mut Vec<usize>, Ghost(n): Ghost<nat>)
    requires
        forall|i: int| 0 <= i < old(v)@.len() ==> #[trigger] old(v)@[i] < n,
    ensures
        final(v)@.to_multiset() == old(v)@.to_multiset(),
        final(v)@.len() == old(v)@.len(),
        forall|i: int| 0 <= i < final(v)@.len() ==> #[trigger] final(v)@[i] < n,
{
    let ghost before = v@;
    shuffle(v);
    proof {
        broadcast use vstd::seq_lib::group_to_multiset_ensures;

        assert(before.len() == before.to_multiset().len());
        assert(v@.len() == v@.to_multiset().len());
        assert forall|i: int| 0 <= i < v@.len() implies #[trigger] v@[i] < n by {
            assert(v@.contains(v@[i]));
            assert(v@.to_multiset().count(v@[i]) > 0);
            assert(before.contains(v@[i]));
        }
    }
}

fn random_jobs(choice: PositionChoice, counter: usize, f: usize, b: usize) -> (jobs: Vec<Job>)
    requires
        counter > 0 ==> f > 0 && b > 0,
    ensures
        pairs_follow(jobs@, GenerateMode::Random, counter as nat, f as nat, b as nat),
        positions_follow(jobs@, choice),
{
    let mut jobs: Vec<Job> = Vec::new();
    let mut f_order = index_list(f);
    let mut b_order = index_list(b);
    let mut k: usize = 0;
    while k < counter
        invariant
            counter > 0 ==> f > 0 && b > 0,
            k <= counter,
            jobs@.len() == k,
            f_order@.len() == f,
            b_order@.len() == b,
            forall|i: int| 0 <= i < f_order@.len() ==> #[trigger] f_order@[i] < f,
            forall|i: int| 0 <= i < b_order@.len() ==> #[trigger] b_order@[i] < b,
            forall|m: int|
                0 <= m < jobs@.len() ==> #[trigger] jobs@[m].foreground < f && jobs@[m].background
                    < b,
            positions_follow(jobs@, choice),
        decreases counter - k,
    {
        reshuffle(&mut f_order, Ghost(f as nat));
        reshuffle(&mut b_order, Ghost(b as nat));
        let position = position_for(choice);
        jobs.push(Job { foreground: f_order[0], background: b_order[0], position });
        k = k + 1;
    }
    jobs
}

/// The composites of a generation run, given its mode, the configured foreground
/// position (`random` or a position name), the number of images asked for (used by
/// the `loop` and `random` modes) and the numbers of foreground and background files.
pub fn generate(
    mode: &str,
    foreground_position: String,
    counter: usize,
    foreground_count: usize,
    background_count: usize,
) -> (r: Result<Vec<Job>, GenerateError>)
    requires
        generation_indexes_lists(mode@, foreground_position@, counter as nat) ==> foreground_count
            > 0 && background_count > 0,
    ensures
        spec_generate_mode(mode@) is None ==> r == Err::<Vec<Job>, GenerateError>(
            GenerateError::UnsupportedMode,
        ),
        spec_generate_mode(mode@) is Some && spec_position_choice(foreground_position@) is None
            ==> r == Err::<Vec<Job>, GenerateError>(GenerateError::InvalidPosition),
        r is Ok <==> spec_generate_mode(mode@) is Some && spec_position_choice(
            foreground_position@,
        ) is Some,
        r matches Ok(jobs) ==> {
            &&& pairs_follow(
                jobs@,
                spec_generate_mode(mode@).unwrap(),
                counter as nat,
                foreground_count as nat,
                background_count as nat,
            )
            &&& positions_follow(jobs@, spec_position_choice(foreground_position@).unwrap())
        },
{
    let m = match parse_generate_mode(mode) {
        Some(m) => m,
        None => {
            return Err(GenerateError::UnsupportedMode);
        },
    };
    let choice = match parse_position_choice(foreground_position) {
        Some(c) => c,
        None => {
            return Err(GenerateError::InvalidPosition);
        },
    };
    match m {
        GenerateMode::All => Ok(all_jobs(choice, foreground_count, background_count)),
        GenerateMode::Loop => Ok(loop_jobs(choice, counter, foreground_count, background_count)),
        GenerateMode::Random => Ok(
            random_jobs(choice, counter, foreground_count, background_count),
        ),
    }
}

} // verus!
