//! Records of a batch: each line after the header names a puzzle and the solution
//! expected for it, and each record is checked on its own against the solver.

use std::str::FromStr;
use vstd::prelude::*;
use crate::board::Board;
use crate::solver::{first_completion, lemma_first_completion_unique, solvable, solve};
use crate::text::{parses, text_grid};

verus! {

broadcast use vstd::string::group_string_axioms;

/// The line is the record with the given two fields: the first field, a comma and the
/// second field, with no other comma.
pub open spec fn is_record(line: Seq<char>, fields: (Seq<char>, Seq<char>)) -> bool {
    &&& line == fields.0 + seq![','] + fields.1
    &&& !fields.0.contains(',')
    &&& !fields.1.contains(',')
}

/// The two fields of a line, if the line is a record.
pub open spec fn fields_of(line: Seq<char>) -> Option<(Seq<char>, Seq<char>)> {
    if exists|fields: (Seq<char>, Seq<char>)| is_record(line, fields) {
        Some(choose|fields: (Seq<char>, Seq<char>)| is_record(line, fields))
    } else {
        None
    }
}

/// The records of a batch given by its lines. The first line is a header and is passed
/// over; of the other lines, those that are no record are left out.
pub open spec fn batch_records(lines: Seq<Seq<char>>) -> Seq<(Seq<char>, Seq<char>)>
    decreases lines.len(),
{
    if lines.len() <= 1 {
        Seq::empty()
    } else {
        let earlier = batch_records(lines.drop_last());
        match fields_of(lines.last()) {
            Some(fields) => earlier.push(fields),
            None => earlier,
        }
    }
}

/// A line is the record of at most one pair of fields.
pub proof fn lemma_record_unique(
    line: Seq<char>,
    a: (Seq<char>, Seq<char>),
    b: (Seq<char>, Seq<char>),
)
    requires
        is_record(line, a),
        is_record(line, b),
    ensures
        a == b,
{
    let m = a.0.len() as int;
    let n = b.0.len() as int;
    assert(line[m] == ',');
    assert(line[n] == ',');
    if m < n {
        assert(b.0[m] == line[m]);
    }
    if n < m {
        assert(a.0[n] == line[n]);
    }
    assert(a.0 =~= line.take(m));
    assert(b.0 =~= line.take(n));
    assert(a.1 =~= line.skip(m + 1));
    assert(b.1 =~= line.skip(n + 1));
}

/// The fields of a record are the ones that `fields_of` names.
pub proof fn lemma_fields_of_record(line: Seq<char>, fields: (Seq<char>, Seq<char>))
    ensures
        is_record(line, fields) <==> fields_of(line) == Some(fields),
{
    if is_record(line, fields) {
        let chosen = choose|f: (Seq<char>, Seq<char>)| is_record(line, f);
        lemma_record_unique(line, chosen, fields);
    }
}

/// A line without a comma is no record.
proof fn lemma_no_comma_no_record(line: Seq<char>)
    requires
        !line.contains(','),
    ensures
        forall|fields: (Seq<char>, Seq<char>)| !is_record(line, fields),
{
    assert forall|fields: (Seq<char>, Seq<char>)| !is_record(line, fields) by {
        if is_record(line, fields) {
            assert(line[fields.0.len() as int] == ',');
        }
    }
}

/// A line with two commas is no record.
proof fn lemma_two_commas_no_record(line: Seq<char>, first: int, second: int)
    requires
        0 <= first < second < line.len(),
        line[first] == ',',
        line[second] == ',',
    ensures
        forall|fields: (Seq<char>, Seq<char>)| !is_record(line, fields),
{
    assert forall|fields: (Seq<char>, Seq<char>)| !is_record(line, fields) by {
        if is_record(line, fields) {
            let n = fields.0.len() as int;
            if first < n {
                assert(fields.0[first] == line[first]);
            } else {
                assert(fields.1[second - n - 1] == line[second]);
            }
        }
    }
}

/// Splits a line into its two fields. Fails exactly on the lines that are no record:
/// those that do not hold one comma and no more.
pub fn split_record(line: &str) -> (fields: Option<(String, String)>)
    ensures
        match fields {
            Some(pair) => is_record(line@, pair@),
            None => forall|f: (Seq<char>, Seq<char>)| !is_record(line@, f),
        },
{
    let mut puzzle = String::new();
    let mut solution = String::new();
    let mut seen_comma = false;
    for c in it: line.chars()
        invariant
            it.seq() == line@,
            !puzzle@.contains(','),
            !solution@.contains(','),
            !seen_comma ==> puzzle@ == line@.take(it.index() as int) && solution@.len() == 0,
            seen_comma ==> line@.take(it.index() as int) == puzzle@ + seq![','] + solution@,
    {
        let ghost before_puzzle = puzzle@;
        let ghost before_solution = solution@;
        if c == ',' {
            if seen_comma {
                proof {
                    let taken = line@.take(it.index() as int);
                    assert(taken[puzzle@.len() as int] == ',');
                    lemma_two_commas_no_record(line@, puzzle@.len() as int, it.index() as int);
                }
                return None;
            }
            seen_comma = true;
            proof {
                assert(line@.take(it.index() + 1) =~= puzzle@ + seq![','] + solution@);
            }
        } else if seen_comma {
            solution.push(c);
            proof {
                assert(line@.take(it.index() + 1) =~= line@.take(it.index() as int).push(c));
                assert(line@.take(it.index() + 1) =~= puzzle@ + seq![','] + solution@);
                assert forall|k: int| 0 <= k < solution@.len() implies solution@[k] != ',' by {
                    if k < before_solution.len() {
                        assert(before_solution[k] == solution@[k]);
                    }
                }
            }
        } else {
            puzzle.push(c);
            proof {
                assert(puzzle@ =~= line@.take(it.index() + 1));
                assert forall|k: int| 0 <= k < puzzle@.len() implies puzzle@[k] != ',' by {
                    if k < before_puzzle.len() {
                        assert(before_puzzle[k] == puzzle@[k]);
                    }
                }
            }
        }
    }
    proof {
        assert(line@.take(line@.len() as int) =~= line@);
    }
    if seen_comma {
        Some((puzzle, solution))
    } else {
        proof {
            lemma_no_comma_no_record(line@);
        }
        None
    }
}

/// Gathers the records of a batch from its lines: the header line is passed over, and
/// so is every line that is no record.
pub fn collect_records(lines: &Vec<String>) -> (records: Vec<(String, String)>)
    ensures
        records.deep_view() == batch_records(lines.deep_view()),
{
    let mut records: Vec<(String, String)> = Vec::new();
    if lines.len() == 0 {
        proof {
            assert(records.deep_view() =~= batch_records(lines.deep_view()));
        }
        return records;
    }
    let mut idx: usize = 1;
    proof {
        assert(records.deep_view() =~= batch_records(lines.deep_view().take(1)));
    }
    while idx < lines.len()
        invariant
            1 <= idx <= lines.len(),
            records.deep_view() == batch_records(lines.deep_view().take(idx as int)),
        decreases lines.len() - idx,
    {
        let ghost before = records.deep_view();
        proof {
            let upto = lines.deep_view().take(idx + 1);
            assert(upto.drop_last() =~= lines.deep_view().take(idx as int));
            assert(upto.last() == lines[idx as int]@);
        }
        match split_record(lines[idx].as_str()) {
            Some(pair) => {
                proof {
                    lemma_fields_of_record(lines[idx as int]@, pair@);
                }
                records.push(pair);
                proof {
                    assert(records.deep_view() =~= before.push(pair@));
                }
            },
            None => {},
        }
        idx += 1;
    }
    proof {
        assert(lines.deep_view().take(lines.len() as int) =~= lines.deep_view());
    }
    records
}

/// What checking one record against the solver comes to.
#[derive(Clone, Copy, Debug, PartialEq, Eq)]
pub enum Verdict {
    /// The record is not checked: one of its two texts describes no board.
    Skipped,
    /// The puzzle has no solution.
    Unsolved,
    /// The solver found a solution other than the expected one.
    Mismatch { expected: Board, found: Board },
    /// The solver found the expected solution.
    Confirmed,
}

/// A record is checked when both of its texts describe a board.
pub open spec fn checkable(puzzle: Seq<char>, solution: Seq<char>) -> bool {
    parses(puzzle) && parses(solution)
}

/// The verdict is the right one for the record of the two texts.
pub open spec fn verdict_fits(puzzle: Seq<char>, solution: Seq<char>, verdict: Verdict) -> bool {
    match verdict {
        Verdict::Skipped => !checkable(puzzle, solution),
        Verdict::Unsolved => {
            &&& checkable(puzzle, solution)
            &&& !solvable(text_grid(puzzle), 0)
        },
        Verdict::Mismatch { expected, found } => {
            &&& checkable(puzzle, solution)
            &&& expected.wf()
            &&& expected@ == text_grid(solution)
            &&& found.wf()
            &&& first_completion(text_grid(puzzle), 0, found@)
            &&& found@ != expected@
        },
        Verdict::Confirmed => {
            &&& checkable(puzzle, solution)
            &&& first_completion(text_grid(puzzle), 0, text_grid(solution))
        },
    }
}

/// The verdict on a record is fixed by its two texts: two verdicts that are right for
/// the same record are the same. Records can therefore be checked in any order, one
/// after another or side by side, with the same outcome for each.
pub proof fn lemma_verdict_determined(
    puzzle: Seq<char>,
    solution: Seq<char>,
    a: Verdict,
    b: Verdict,
)
    requires
        verdict_fits(puzzle, solution, a),
        verdict_fits(puzzle, solution, b),
    ensures
        a == b,
{
    let g = text_grid(puzzle);
    let s = text_grid(solution);
    match (a, b) {
        (
            Verdict::Mismatch { expected: e1, found: f1 },
            Verdict::Mismatch { expected: e2, found: f2 },
        ) => {
            lemma_first_completion_unique(g, 0, f1@, f2@);
            e1.lemma_cells_determine_board(e2);
            f1.lemma_cells_determine_board(f2);
        },
        (Verdict::Mismatch { found, .. }, Verdict::Confirmed) => {
            lemma_first_completion_unique(g, 0, found@, s);
        },
        (Verdict::Confirmed, Verdict::Mismatch { found, .. }) => {
            lemma_first_completion_unique(g, 0, found@, s);
        },
        _ => {},
    }
}

/// An expected solution with an empty cell is never confirmed: what the solver finds
/// has a digit in every cell, so such a record is a mismatch or, where the puzzle has
/// no solution, unsolved.
pub proof fn lemma_confirmed_solution_is_full(puzzle: Seq<char>, solution: Seq<char>)
    requires
        verdict_fits(puzzle, solution, Verdict::Confirmed),
    ensures
        !solution.contains('0'),
{
    let s = text_grid(solution);
    assert forall|i: int| 0 <= i < solution.len() implies solution[i] != '0' by {
        assert(s[i] != 0);
    }
}

/// Checks one record: solves the puzzle and compares what the solver finds with the
/// expected solution.
///
/// A record one of whose texts describes no board is passed over.
pub fn try_solve(puzzle_str: &str, solution_str: &str) -> (verdict: Verdict)
    ensures
        verdict_fits(puzzle_str@, solution_str@, verdict),
{
    let puzzle = match Board::from_str(puzzle_str) {
        Ok(board) => board,
        Err(_) => {
            return Verdict::Skipped;
        },
    };
    let solution = match Board::from_str(solution_str) {
        Ok(board) => board,
        Err(_) => {
            return Verdict::Skipped;
        },
    };
    match solve(puzzle, 0) {
        None => Verdict::Unsolved,
        Some(solution_solved) => {
            if solution != solution_solved {
                Verdict::Mismatch { expected: solution, found: solution_solved }
            } else {
                Verdict::Confirmed
            }
        },
    }
}

} // verus!
