//! The pipeline executor's decision logic: splitting a line into stages,
//! planning each stage (built-in dispatch and stream wiring) and resolving a
//! binary name against the current directory and the search path.
//!
//! Everything here is pure: the surrounding program reads the working
//! directory and the search-path variable, checks candidate paths on the
//! filesystem, spawns processes and waits on them, feeding this module plain
//! strings and booleans and acting on the plans it returns.

use vstd::prelude::*;

use crate::parser::stages_of;
use crate::parser::valid_command;
use crate::text::contains_char;
use crate::text::first_at;
use crate::text::lemma_first_at;
use crate::text::lemma_first_nonspace_trims_nonempty;
use crate::text::lemma_split_at_first_delim;
use crate::text::lemma_split_len;
use crate::text::lemma_split_no_delim;
use crate::text::lemma_trimmed_head;
use crate::text::lemma_trimmed_idempotent;
use crate::text::split_on;
use crate::text::split_str;
use crate::text::str_eq;
use crate::text::trim_str;
use crate::text::trimmed;
use crate::text::views_of;

verus! {

/// Describes the ways executing a pipeline may fail.
#[derive(Debug)]
pub enum ExecutionError {
    BinaryNotFound(String),
    ProcessErrorFound,
}

impl PartialEq for ExecutionError {
    fn eq(&self, other: &Self) -> (r: bool) {
        match (self, other) {
            (ExecutionError::BinaryNotFound(a), ExecutionError::BinaryNotFound(b)) => str_eq(
                a.as_str(),
                b.as_str(),
            ),
            (ExecutionError::ProcessErrorFound, ExecutionError::ProcessErrorFound) => true,
            _ => false,
        }
    }
}

impl vstd::std_specs::cmp::PartialEqSpecImpl for ExecutionError {
    open spec fn obeys_eq_spec() -> bool {
        true
    }

    open spec fn eq_spec(&self, other: &Self) -> bool {
        match (self, other) {
            (ExecutionError::BinaryNotFound(a), ExecutionError::BinaryNotFound(b)) => a@ == b@,
            (ExecutionError::ProcessErrorFound, ExecutionError::ProcessErrorFound) => true,
            _ => false,
        }
    }
}

impl ExecutionError {
    /// The one-line human-readable message for this error.
    pub fn message(&self) -> (r: String)
        ensures
            match self {
                ExecutionError::ProcessErrorFound => r@ == "command could not be executed correctly"@,
                ExecutionError::BinaryNotFound(binary) => r@ == "command not found: "@ + binary@,
            },
    {
        match self {
            ExecutionError::ProcessErrorFound => String::from_str(
                "command could not be executed correctly",
            ),
            ExecutionError::BinaryNotFound(binary) => String::from_str(
                "command not found: ",
            ).concat(binary.as_str()),
        }
    }
}

/// The candidate paths binary resolution probes, in order: the name under
/// the current working directory first, then the name under each
/// colon-separated directory of the search-path variable.  An empty
/// search-path value is an empty directory list and contributes no
/// candidates at all.
pub open spec fn candidate_paths(name: Seq<char>, cwd: Seq<char>, path_var: Seq<char>) -> Seq<
    Seq<char>,
> {
    if path_var.len() == 0 {
        seq![cwd + "/"@ + name]
    } else {
        seq![cwd + "/"@ + name] + split_on(path_var, ':').map_values(|d: Seq<char>| d + "/"@ + name)
    }
}

/// Builds the ordered candidate paths for a binary name: the current
/// working directory always comes first, then the search-path directories
/// in the order the variable lists them.  An unset search path is handed in
/// as the empty string and is treated as an empty list of directories.
pub fn resolution_candidates(binary_name: &str, current_dir: &str, path_var: &str) -> (r: Vec<
    String,
>)
    ensures
        views_of(r@) == candidate_paths(binary_name@, current_dir@, path_var@),
{
    let ghost goal = candidate_paths(binary_name@, current_dir@, path_var@);
    let mut r: Vec<String> = Vec::new();
    let first = String::from_str(current_dir).concat("/").concat(binary_name);
    r.push(first);
    proof {
        assert(views_of(r@) =~= goal.subrange(0, 1));
    }
    if path_var.is_empty() {
        proof {
            assert(views_of(r@) =~= goal);
        }
        return r;
    }
    let dirs = split_str(path_var, ':');
    let n = dirs.len();
    let mut k: usize = 0;
    while k < n
        invariant
            0 <= k <= n,
            n == dirs@.len(),
            path_var@.len() > 0,
            views_of(dirs@) == split_on(path_var@, ':'),
            goal == candidate_paths(binary_name@, current_dir@, path_var@),
            views_of(r@) == goal.subrange(0, k as int + 1),
        decreases n - k,
    {
        let cand = dirs[k].clone().concat("/").concat(binary_name);
        let ghost old_r = r@;
        r.push(cand);
        proof {
            assert(views_of(r@) =~= views_of(old_r).push(
                split_on(path_var@, ':')[k as int] + "/"@ + binary_name@,
            ));
            assert(views_of(r@) =~= goal.subrange(0, k as int + 2));
        }
        k = k + 1;
    }
    proof {
        assert(goal.subrange(0, n as int + 1) =~= goal);
    }
    r
}

/// `i` is the position of the first usable candidate.
pub open spec fn is_first_usable(usable: Seq<bool>, i: int) -> bool {
    0 <= i < usable.len() && usable[i] && forall|j: int| 0 <= j < i ==> !usable[j]
}

/// Picks the first usable candidate path, in order; earlier candidates
/// always win over later ones.  When no candidate is usable, resolution
/// fails with `BinaryNotFound` carrying the searched name.
pub fn select_binary(candidates: &Vec<String>, usable: &Vec<bool>, binary_name: &str) -> (r: Result<
    String,
    ExecutionError,
>)
    requires
        candidates@.len() == usable@.len(),
    ensures
        match r {
            Ok(p) => exists|i: int|
                #[trigger] is_first_usable(usable@, i) && p@ == candidates@[i]@,
            Err(e) => (forall|i: int| 0 <= i < usable@.len() ==> !usable@[i]) && (match e {
                ExecutionError::BinaryNotFound(n) => n@ == binary_name@,
                _ => false,
            }),
        },
{
    let n = candidates.len();
    let mut k: usize = 0;
    while k < n
        invariant
            0 <= k <= n,
            n == candidates@.len(),
            n == usable@.len(),
            forall|j: int| 0 <= j < k ==> !usable@[j],
        decreases n - k,
    {
        if usable[k] {
            proof {
                assert(is_first_usable(usable@, k as int));
            }
            return Ok(candidates[k].clone());
        }
        k = k + 1;
    }
    Err(ExecutionError::BinaryNotFound(String::from_str(binary_name)))
}

/// The current-directory candidate stands first, so whenever it is usable
/// it is the one resolution picks, whatever the search path holds.
pub proof fn lemma_current_dir_precedence(usable: Seq<bool>, i: int)
    requires
        usable.len() > 0,
        usable[0],
        is_first_usable(usable, i),
    ensures
        i == 0,
{
}

/// What the executor is to do for one pipeline stage.
#[derive(Debug)]
pub enum StagePlan {
    /// An exit built-in: the whole shell terminates with success status.
    Exit,
    /// A directory-change built-in: change to `target`, or to the configured
    /// default when no argument was given; failures are swallowed.  The rest
    /// of the pipeline is short-circuited.
    ChangeDir { target: Option<String> },
    /// An empty command: the pipeline is a no-op that succeeds immediately.
    Finish,
    /// An external command: resolve `binary`, spawn it with `args`, capture
    /// its standard output when a later stage consumes it, and take its
    /// standard input from the previous stage unless it is the first.
    Run { binary: String, args: Vec<String>, capture_stdout: bool, stdin_from_previous: bool },
}

/// The whitespace-split tokens of a stage: a literal split on the space
/// character of the trimmed stage, empty tokens kept.
pub open spec fn stage_tokens(stage: Seq<char>) -> Seq<Seq<char>> {
    split_on(trimmed(stage), ' ')
}

/// The binary-name token of a stage: its first token, trimmed.
pub open spec fn stage_binary(stage: Seq<char>) -> Seq<char> {
    trimmed(stage_tokens(stage)[0])
}

/// The tokens that name the exit built-in.
pub open spec fn is_exit_word(s: Seq<char>) -> bool {
    s == "exit"@ || s == "q"@
}

/// The one plan a stage admits, given its position in the pipeline.
pub open spec fn plan_ok(stage: Seq<char>, is_first: bool, is_last: bool, p: StagePlan) -> bool {
    let toks = stage_tokens(stage);
    let bin = stage_binary(stage);
    if is_exit_word(bin) {
        p == StagePlan::Exit
    } else if bin == "cd"@ {
        match p {
            StagePlan::ChangeDir { target } => match target {
                Some(t) => toks.len() >= 2 && t@ == toks[1],
                None => toks.len() < 2,
            },
            _ => false,
        }
    } else if bin.len() == 0 {
        p == StagePlan::Finish
    } else {
        match p {
            StagePlan::Run { binary, args, capture_stdout, stdin_from_previous } => binary@ == bin
                && views_of(args@) == toks.skip(1) && capture_stdout == !is_last
                && stdin_from_previous == !is_first,
            _ => false,
        }
    }
}

/// Plans one stage: dispatches the built-ins on the binary-name token, and
/// wires an external command's streams from its position — standard output
/// is captured for every stage but the last, standard input comes from the
/// previous stage for every stage but the first.
pub fn plan_stage(stage: &str, is_first: bool, is_last: bool) -> (p: StagePlan)
    ensures
        plan_ok(stage@, is_first, is_last, p),
{
    let t = trim_str(stage);
    let toks = split_str(t, ' ');
    proof {
        lemma_split_len(trimmed(stage@), ' ', Seq::empty());
    }
    let bin = trim_str(toks[0].as_str());
    if str_eq(bin, "exit") || str_eq(bin, "q") {
        StagePlan::Exit
    } else if str_eq(bin, "cd") {
        if toks.len() >= 2 {
            StagePlan::ChangeDir { target: Some(toks[1].clone()) }
        } else {
            StagePlan::ChangeDir { target: None }
        }
    } else if bin.unicode_len() == 0 {
        StagePlan::Finish
    } else {
        let binary = String::from_str(bin);
        let mut args: Vec<String> = Vec::new();
        let n = toks.len();
        let mut k: usize = 1;
        proof {
            assert(views_of(args@) =~= stage_tokens(stage@).subrange(1, 1));
        }
        while k < n
            invariant
                1 <= k <= n,
                n == toks@.len(),
                views_of(toks@) == stage_tokens(stage@),
                views_of(args@) == stage_tokens(stage@).subrange(1, k as int),
            decreases n - k,
        {
            let ghost old_args = args@;
            args.push(toks[k].clone());
            proof {
                assert(views_of(args@) =~= views_of(old_args).push(
                    stage_tokens(stage@)[k as int],
                ));
                assert(views_of(args@) =~= stage_tokens(stage@).subrange(1, k as int + 1));
            }
            k = k + 1;
        }
        proof {
            assert(stage_tokens(stage@).subrange(1, n as int) =~= stage_tokens(stage@).skip(1));
        }
        StagePlan::Run { binary, args, capture_stdout: !is_last, stdin_from_previous: !is_first }
    }
}

/// A stage that is non-empty after trimming always has a non-empty
/// binary-name token: the first whitespace-split token starts with the
/// stage's own first character.
pub proof fn lemma_nonempty_stage_has_binary(stage: Seq<char>)
    requires
        trimmed(stage).len() > 0,
    ensures
        stage_binary(stage).len() > 0,
{
    let t = trimmed(stage);
    lemma_trimmed_head(stage);
    lemma_first_at(t, ' ');
    let f = first_at(t, ' ');
    if contains_char(t, ' ') {
        assert(f > 0) by {
            if f == 0 {
                assert(t[0] == ' ');
            }
        }
        lemma_split_at_first_delim(t, ' ', Seq::empty(), f);
        assert(Seq::<char>::empty() + t.take(f) =~= t.take(f));
        assert(t.take(f)[0] == t[0]);
        lemma_first_nonspace_trims_nonempty(t.take(f));
    } else {
        lemma_split_no_delim(t, ' ', Seq::empty());
        assert(Seq::<char>::empty() + t =~= t);
        lemma_first_nonspace_trims_nonempty(t);
    }
}

/// In a valid pipeline of two or more stages no stage is empty, so none of
/// them plans the empty-command no-op: an empty binary-name token can only
/// come from a wholly blank input line.
pub proof fn lemma_valid_pipeline_stages_nonempty(line: Seq<char>, i: int)
    requires
        valid_command(line),
        contains_char(line, '|'),
        0 <= i < stages_of(line).len(),
    ensures
        stages_of(line)[i].len() > 0,
        stage_binary(stages_of(line)[i]).len() > 0,
{
    lemma_trimmed_idempotent(split_on(line, '|')[i]);
    lemma_nonempty_stage_has_binary(stages_of(line)[i]);
}

/// A plan that spawns a process; the other plans end the pipeline.
pub open spec fn plan_is_run(p: StagePlan) -> bool {
    match p {
        StagePlan::Run { .. } => true,
        _ => false,
    }
}

/// Plans a whole pipeline, left to right.  Planning stops at the first
/// stage whose plan is not `Run`: an exit, a directory change or an empty
/// command short-circuits the stages after it, so no process is ever
/// planned past a built-in.
pub fn pipeline_plans(stages: &Vec<String>) -> (r: Vec<StagePlan>)
    ensures
        r@.len() <= stages@.len(),
        stages@.len() > 0 ==> r@.len() >= 1,
        forall|i: int|
            0 <= i < r@.len() ==> plan_ok(
                stages@[i]@,
                i == 0,
                i == stages@.len() - 1,
                #[trigger] r@[i],
            ),
        forall|i: int| 0 <= i < r@.len() - 1 ==> plan_is_run(#[trigger] r@[i]),
        r@.len() < stages@.len() ==> !plan_is_run(r@[r@.len() - 1]),
{
    let n = stages.len();
    let mut r: Vec<StagePlan> = Vec::new();
    let mut k: usize = 0;
    let mut stopped = false;
    while k < n && !stopped
        invariant
            0 <= k <= n,
            n == stages@.len(),
            r@.len() == k,
            forall|i: int|
                0 <= i < k ==> plan_ok(stages@[i]@, i == 0, i == n - 1, #[trigger] r@[i]),
            forall|i: int| 0 <= i < k - 1 ==> plan_is_run(#[trigger] r@[i]),
            stopped ==> k >= 1 && !plan_is_run(r@[k - 1]),
            !stopped && k >= 1 ==> plan_is_run(r@[k - 1]),
        decreases n - k,
    {
        let p = plan_stage(stages[k].as_str(), k == 0, k == n - 1);
        let is_run = match &p {
            StagePlan::Run { .. } => true,
            _ => false,
        };
        r.push(p);
        if !is_run {
            stopped = true;
        }
        k = k + 1;
    }
    r
}

} // verus!
