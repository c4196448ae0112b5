//! Structural validation of a command line's pipe syntax, and splitting a
//! valid line into its pipeline stages.
//!
//! Validation is purely syntactic and runs before anything is resolved or
//! spawned: a line is well-formed when it either holds no pipe delimiter at
//! all, or every segment between delimiters is non-empty after trimming.

use vstd::prelude::*;

use crate::text::blank;
use crate::text::contains_char;
use crate::text::first_at;
use crate::text::is_shell_space;
use crate::text::lemma_blank_trims_empty;
use crate::text::lemma_contains_iff_split_len;
use crate::text::lemma_first_at;
use crate::text::lemma_split_at_first_delim;
use crate::text::lemma_split_no_delim;
use crate::text::split_on;
use crate::text::split_str;
use crate::text::str_contains_char;
use crate::text::str_eq;
use crate::text::trim_str;
use crate::text::trimmed;
use crate::text::views_of;

verus! {

/// Describes the ways a parse attempt may fail.
#[derive(Debug, PartialEq, Eq, Structural)]
pub enum ParseError {
    InvalidCommandStructure,
}

/// A command line is structurally valid when it has no pipe delimiter, or
/// when every segment between delimiters is non-empty after trimming.  This
/// rejects a leading delimiter (nothing feeds the first stage), a trailing
/// one (the last stage has no consumer) and adjacent ones (an empty stage).
pub open spec fn valid_command(s: Seq<char>) -> bool {
    contains_char(s, '|') ==> forall|i: int|
        0 <= i < split_on(s, '|').len() ==> trimmed(#[trigger] split_on(s, '|')[i]).len() > 0
}

/// The stage strings a command line denotes: its segments between pipe
/// delimiters, each trimmed.
pub open spec fn stages_of(s: Seq<char>) -> Seq<Seq<char>> {
    split_on(s, '|').map_values(|t: Seq<char>| trimmed(t))
}

/// Checks if a given command is partially valid: the piping of commands is
/// well-formed (the command does not start or end with a pipe) and there are
/// no empty commands between pipes.  Whether each binary exists is checked
/// later, not here.
pub fn is_valid_command(command: &str) -> (b: bool)
    ensures
        b == valid_command(command@),
{
    let segs = split_str(command, '|');
    proof {
        lemma_contains_iff_split_len(command@, '|');
    }
    if segs.len() <= 1 {
        return true;
    }
    let mut k: usize = 0;
    while k < segs.len()
        invariant
            0 <= k <= segs@.len(),
            views_of(segs@) == split_on(command@, '|'),
            segs@.len() >= 2,
            contains_char(command@, '|'),
            forall|j: int| 0 <= j < k ==> trimmed(#[trigger] split_on(command@, '|')[j]).len() > 0,
        decreases segs@.len() - k,
    {
        let t = trim_str(segs[k].as_str());
        if t.unicode_len() == 0 {
            proof {
                assert(trimmed(split_on(command@, '|')[k as int]).len() == 0);
            }
            return false;
        }
        k = k + 1;
    }
    true
}

/// Parses a command.  A valid command is handed back trimmed; the segments
/// between pipe delimiters, if any, feed one another in order.
pub fn parse_command<'a>(command: &'a str) -> (r: Result<&'a str, ParseError>)
    ensures
        match r {
            Ok(t) => valid_command(command@) && t@ == trimmed(command@),
            Err(e) => !valid_command(command@) && e == ParseError::InvalidCommandStructure,
        },
{
    if !is_valid_command(command) {
        Err(ParseError::InvalidCommandStructure)
    } else {
        Ok(trim_str(command))
    }
}

/// Validates a raw command line and, when it is well-formed, yields its
/// stages: the segments between pipe delimiters, each trimmed.  A line with
/// no delimiter is a single stage; a whitespace-only line is the single
/// empty stage, which the executor treats as a no-op.
pub fn validate_and_split(raw_line: &str) -> (r: Result<Vec<String>, ParseError>)
    ensures
        match r {
            Ok(stages) => valid_command(raw_line@) && views_of(stages@) == stages_of(raw_line@),
            Err(e) => !valid_command(raw_line@) && e == ParseError::InvalidCommandStructure,
        },
{
    let segs = split_str(raw_line, '|');
    proof {
        lemma_contains_iff_split_len(raw_line@, '|');
    }
    let piped = segs.len() >= 2;
    let mut stages: Vec<String> = Vec::new();
    let mut k: usize = 0;
    proof {
        assert(views_of(stages@) =~= stages_of(raw_line@).subrange(0, 0));
    }
    while k < segs.len()
        invariant
            0 <= k <= segs@.len(),
            views_of(segs@) == split_on(raw_line@, '|'),
            piped == (segs@.len() >= 2),
            piped == contains_char(raw_line@, '|'),
            views_of(stages@) == stages_of(raw_line@).subrange(0, k as int),
            forall|j: int| 0 <= j < k ==> (piped ==> trimmed(
                #[trigger] split_on(raw_line@, '|')[j],
            ).len() > 0),
        decreases segs@.len() - k,
    {
        let t = trim_str(segs[k].as_str());
        if piped && t.unicode_len() == 0 {
            proof {
                assert(trimmed(split_on(raw_line@, '|')[k as int]).len() == 0);
            }
            return Err(ParseError::InvalidCommandStructure);
        }
        let ghost old_stages = stages@;
        stages.push(String::from_str(t));
        proof {
            assert(views_of(stages@) =~= views_of(old_stages).push(
                trimmed(split_on(raw_line@, '|')[k as int]),
            ));
            assert(views_of(stages@) =~= stages_of(raw_line@).subrange(0, k as int + 1));
        }
        k = k + 1;
    }
    proof {
        assert(stages_of(raw_line@).subrange(0, split_on(raw_line@, '|').len() as int)
            =~= stages_of(raw_line@));
    }
    Ok(stages)
}

/// A line without a pipe delimiter is always structurally valid, and denotes
/// exactly one stage: the trimmed line.
pub proof fn lemma_no_pipe_single_stage(s: Seq<char>)
    requires
        !contains_char(s, '|'),
    ensures
        valid_command(s),
        stages_of(s) == seq![trimmed(s)],
{
    lemma_split_no_delim(s, '|', Seq::empty());
    assert(Seq::<char>::empty() + s =~= s);
    assert(stages_of(s) =~= seq![trimmed(s)]);
}

/// A line of pipe-separated segments, each non-empty after trimming, is
/// valid, and denotes exactly one stage per segment.
pub proof fn lemma_nonblank_segments_valid(s: Seq<char>)
    requires
        forall|i: int|
            0 <= i < split_on(s, '|').len() ==> trimmed(#[trigger] split_on(s, '|')[i]).len() > 0,
    ensures
        valid_command(s),
        stages_of(s).len() == split_on(s, '|').len(),
{
}

proof fn lemma_invalid_lift(s: Seq<char>, j: int, k: int)
    requires
        0 <= j < s.len(),
        s[j] == '|',
        forall|m: int| 0 <= m < j ==> s[m] != '|',
        0 <= k < split_on(s.skip(j + 1), '|').len(),
        trimmed(split_on(s.skip(j + 1), '|')[k]).len() == 0,
    ensures
        !valid_command(s),
{
    lemma_split_at_first_delim(s, '|', Seq::empty(), j);
    assert(split_on(s, '|')[k + 1] == split_on(s.skip(j + 1), '|')[k]);
    assert(contains_char(s, '|')) by {
        assert(s[j] == '|');
    }
    assert(trimmed(split_on(s, '|')[k + 1]).len() == 0);
}

proof fn lemma_lift_invalid_tail(s: Seq<char>, f: int)
    requires
        0 <= f < s.len(),
        s[f] == '|',
        forall|m: int| 0 <= m < f ==> s[m] != '|',
        !valid_command(s.skip(f + 1)),
    ensures
        !valid_command(s),
{
    let tail = s.skip(f + 1);
    let k = choose|k: int|
        0 <= k < split_on(tail, '|').len() && !(trimmed(
            #[trigger] split_on(tail, '|')[k],
        ).len() > 0);
    lemma_invalid_lift(s, f, k);
}

/// A line whose first non-whitespace character is a pipe delimiter is
/// rejected: nothing feeds its first stage.
pub proof fn lemma_leading_pipe_invalid(s: Seq<char>, j: int)
    requires
        0 <= j < s.len(),
        s[j] == '|',
        forall|k: int| 0 <= k < j ==> is_shell_space(s[k]),
    ensures
        !valid_command(s),
{
    assert(forall|k: int| 0 <= k < j ==> s[k] != '|');
    lemma_split_at_first_delim(s, '|', Seq::empty(), j);
    assert(Seq::<char>::empty() + s.take(j) =~= s.take(j));
    assert(blank(s.take(j)));
    lemma_blank_trims_empty(s.take(j));
    assert(split_on(s, '|')[0] == s.take(j));
    assert(contains_char(s, '|')) by {
        assert(s[j] == '|');
    }
    assert(trimmed(split_on(s, '|')[0]).len() == 0);
}

/// A line whose last non-whitespace character is a pipe delimiter is
/// rejected: its last stage has no consumer.
pub proof fn lemma_trailing_pipe_invalid(s: Seq<char>, j: int)
    requires
        0 <= j < s.len(),
        s[j] == '|',
        forall|k: int| j < k < s.len() ==> is_shell_space(s[k]),
    ensures
        !valid_command(s),
    decreases s.len(),
{
    lemma_first_at(s, '|');
    let f = first_at(s, '|');
    assert(contains_char(s, '|')) by {
        assert(s[j] == '|');
    }
    assert(f <= j) by {
        if f > j {
            assert(s[j] != '|');
        }
    }
    let tail = s.skip(f + 1);
    assert(forall|k: int| 0 <= k < tail.len() ==> tail[k] == s[k + f + 1]);
    if f == j {
        assert(blank(tail));
        assert(!contains_char(tail, '|')) by {
            assert forall|m: int| 0 <= m < tail.len() implies tail[m] != '|' by {
                assert(is_shell_space(tail[m]));
            }
        }
        lemma_split_no_delim(tail, '|', Seq::empty());
        assert(split_on(tail, '|')[0] == Seq::<char>::empty() + tail);
        assert(Seq::<char>::empty() + tail =~= tail);
        lemma_blank_trims_empty(tail);
        lemma_invalid_lift(s, f, 0);
    } else {
        lemma_trailing_pipe_invalid(tail, j - f - 1);
        lemma_lift_invalid_tail(s, f);
    }
}

/// A line with two pipe delimiters separated only by whitespace is rejected:
/// the stage between them is empty.
pub proof fn lemma_adjacent_pipes_invalid(s: Seq<char>, i: int, j: int)
    requires
        0 <= i < j < s.len(),
        s[i] == '|',
        s[j] == '|',
        forall|k: int| i < k < j ==> is_shell_space(s[k]),
    ensures
        !valid_command(s),
    decreases s.len(),
{
    lemma_first_at(s, '|');
    let f = first_at(s, '|');
    assert(f <= i) by {
        if f > i {
            assert(s[i] != '|');
        }
    }
    let tail = s.skip(f + 1);
    assert(forall|k: int| 0 <= k < tail.len() ==> tail[k] == s[k + f + 1]);
    if f == i {
        lemma_leading_pipe_invalid(tail, j - i - 1);
    } else {
        lemma_adjacent_pipes_invalid(tail, i - f - 1, j - f - 1);
    }
    lemma_lift_invalid_tail(s, f);
}

/// The states of the stricter draft validator `is_valid_command2`, which
/// also recognises an output-redirection token.
#[derive(Debug, Clone, Copy, PartialEq, Eq, Structural)]
pub enum ParserState {
    Start,
    /// The validator must end on this when there is no redirection token.
    Command,
    Pipe,
    /// Reached once a lone `>` segment is seen.
    Output,
}

/// One run of the draft validator's automaton over the trimmed segments,
/// starting in `st`: a blank segment accepts at the start, a lone `>` there
/// rejects, and after the first command segment a lone `>` or `|` segment
/// parks the automaton outside the accepting state.
pub open spec fn cmd2_from(segs: Seq<Seq<char>>, st: ParserState) -> bool
    decreases segs.len(),
{
    if segs.len() == 0 {
        st == ParserState::Command
    } else {
        let t = trimmed(segs[0]);
        match st {
            ParserState::Start => if t.len() == 0 {
                true
            } else if t == ">"@ {
                false
            } else {
                cmd2_from(segs.skip(1), ParserState::Command)
            },
            ParserState::Command => if t == "|"@ {
                cmd2_from(segs.skip(1), ParserState::Pipe)
            } else if t == ">"@ {
                cmd2_from(segs.skip(1), ParserState::Output)
            } else {
                cmd2_from(segs.skip(1), ParserState::Command)
            },
            ParserState::Pipe => cmd2_from(segs.skip(1), ParserState::Pipe),
            ParserState::Output => cmd2_from(segs.skip(1), ParserState::Output),
        }
    }
}

/// What the draft validator accepts: any line without a pipe or redirection
/// character, and otherwise whatever its automaton accepts.
pub open spec fn valid_command2(s: Seq<char>) -> bool {
    if !contains_char(s, '|') && !contains_char(s, '>') {
        true
    } else {
        cmd2_from(split_on(s, '|'), ParserState::Start)
    }
}

/// A stricter draft of `is_valid_command` that also reacts to a lone `>`
/// segment.  It is kept alongside the validator in use; `parse_command` does
/// not call it.
pub fn is_valid_command2(command: &str) -> (b: bool)
    ensures
        b == valid_command2(command@),
{
    if !str_contains_char(command, '|') && !str_contains_char(command, '>') {
        return true;
    }
    let segs = split_str(command, '|');
    let ghost segv = views_of(segs@);
    let mut st = ParserState::Start;
    let mut k: usize = 0;
    proof {
        assert(segv.skip(0) =~= segv);
    }
    while k < segs.len()
        invariant
            0 <= k <= segs@.len(),
            segv == views_of(segs@),
            segv == split_on(command@, '|'),
            valid_command2(command@) == cmd2_from(segv.skip(k as int), st),
        decreases segs@.len() - k,
    {
        proof {
            assert(segv.skip(k as int)[0] == segv[k as int]);
            assert(segv.skip(k as int).skip(1) =~= segv.skip(k as int + 1));
        }
        let t = trim_str(segs[k].as_str());
        match st {
            ParserState::Start => {
                if t.unicode_len() == 0 {
                    return true;
                } else if str_eq(t, ">") {
                    return false;
                } else {
                    st = ParserState::Command;
                }
            },
            ParserState::Command => {
                if str_eq(t, "|") {
                    st = ParserState::Pipe;
                } else if str_eq(t, ">") {
                    st = ParserState::Output;
                }
            },
            ParserState::Pipe => {},
            ParserState::Output => {},
        }
        k = k + 1;
    }
    proof {
        assert(segv.skip(segs@.len() as int) =~= Seq::<Seq<char>>::empty());
    }
    match st {
        ParserState::Command => true,
        _ => false,
    }
}

} // verus!

