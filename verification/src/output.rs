//! The output boundary: the text of each table cell, the total of the kept
//! values, rendering through the table formatter, and the end-to-end run
//! over a batch of expressions — validate them all, roll, and format.

use vstd::prelude::*;
use crate::digits::{dec, u128_string, u32_string};
use crate::expr::{
    DiceError, DiceRequest, ParseOutcome, RollMode, parse_and_validate, spec_mode_suffix,
    spec_parse_and_validate,
};
use crate::resolve::{RollResult, kept_sum, outcome_ok, roll_dice, total_kept, total_units};

verus! {

/// The text in the `Die` column for one outcome: `d`, the number of sides,
/// and the mode letter if any.
pub open spec fn spec_die_label(res: RollResult) -> Seq<char> {
    seq!['d'] + dec(res.sides as nat) + spec_mode_suffix(res.mode)
}

/// Renders the `Die` column text for one outcome.
pub fn die_label(res: &RollResult) -> (out: String)
    ensures
        out@ == spec_die_label(*res),
{
    let mut out = String::from_str("d");
    let sides_text = u32_string(res.sides);
    out.append(sides_text.as_str());
    match res.mode {
        RollMode::Normal => {},
        RollMode::Advantage => out.append("a"),
        RollMode::Disadvantage => out.append("d"),
    }
    proof {
        reveal_strlit("d");
        reveal_strlit("a");
        assert(out@ =~= spec_die_label(*res));
    }
    out
}

/// The text in the `Roll` column for one outcome: the kept value alone, or
/// the kept value followed by the dropped value in parentheses.
pub open spec fn spec_roll_cell(res: RollResult) -> Seq<char> {
    match res.dropped {
        Some(d) => dec(res.kept as nat) + " ("@ + dec(d as nat) + ")"@,
        None => dec(res.kept as nat),
    }
}

/// Renders the `Roll` column text for one outcome.
pub fn roll_cell(res: &RollResult) -> (out: String)
    ensures
        out@ == spec_roll_cell(*res),
{
    let mut out = u32_string(res.kept);
    match res.dropped {
        Some(d) => {
            out.append(" (");
            let dropped_text = u32_string(d);
            out.append(dropped_text.as_str());
            out.append(")");
            proof {
                assert(out@ =~= spec_roll_cell(*res));
            }
        },
        None => {},
    }
    out
}

/// The header of the output table.
pub open spec fn spec_header() -> Seq<Seq<char>> {
    seq!["Die"@, "Roll"@]
}

/// One table row per outcome: the die label and the roll text.
pub open spec fn spec_rows(results: Seq<RollResult>) -> Seq<Seq<Seq<char>>> {
    results.map(|i: int, res: RollResult| seq![spec_die_label(res), spec_roll_cell(res)])
}

/// The final table row: the label `Total` and the sum of the kept values.
pub open spec fn spec_total_row(results: Seq<RollResult>) -> Seq<Seq<char>> {
    seq!["Total"@, dec(kept_sum(results, results.len() as int) as nat)]
}

/// All the rows of the output table for a batch of outcomes: one per
/// outcome, and the total row last.
pub open spec fn spec_table_rows(results: Seq<RollResult>) -> Seq<Seq<Seq<char>>> {
    spec_rows(results).push(spec_total_row(results))
}

/// The text that the table renderer produces from a header and rows.
pub uninterp spec fn table_text(header: Seq<Seq<char>>, rows: Seq<Seq<Seq<char>>>) -> Seq<char>;

/// Relies on comfy_table: a freshly built `Table` (ASCII preset, content
/// arrangement disabled, no width constraint) renders, through `Display`,
/// text that is a function of the header and row cells alone.
#[verifier::external_body]
fn render_table(header: &Vec<String>, rows: &Vec<Vec<String>>) -> (out: String)
    ensures
        out@ == table_text(header.deep_view(), rows.deep_view()),
{
    let mut table = comfy_table::Table::new();
    table.set_header(header.clone());
    table.add_rows(rows.clone());
    table.to_string()
}

/// The views of a batch of argument strings.
pub open spec fn arg_views(args: Seq<String>) -> Seq<Seq<char>> {
    args.map(|i: int, s: String| s@)
}

/// Whether every token of the batch parses and validates.
pub open spec fn all_parse(args: Seq<Seq<char>>) -> bool {
    forall|i: int| 0 <= i < args.len() ==> spec_parse_and_validate(#[trigger] args[i]) is Parsed
}

/// The request that a token parses to, when it validates.
pub open spec fn spec_request_of(s: Seq<char>) -> DiceRequest {
    match spec_parse_and_validate(s) {
        ParseOutcome::Parsed { req } => req,
        _ => DiceRequest { count: 0, sides: 0, mode: RollMode::Normal },
    }
}

/// The requests that a batch of tokens parses to.
pub open spec fn spec_requests(args: Seq<Seq<char>>) -> Seq<DiceRequest> {
    args.map(|i: int, s: Seq<char>| spec_request_of(s))
}

/// Whether `e` names the reason the token `s` is rejected.
pub open spec fn error_matches(e: DiceError, s: Seq<char>) -> bool {
    match e {
        DiceError::Syntax { token } => spec_parse_and_validate(s) is BadSyntax && token@ == s,
        DiceError::TrailingContent { token, rest } => spec_parse_and_validate(s)
            == (ParseOutcome::Trailing { rest: rest@ }) && token@ == s,
        DiceError::ZeroSides => spec_parse_and_validate(s) is ZeroSides,
    }
}

/// Every token before `i` validates, token `i` does not, and `e` is the
/// error that token `i` yields: the run fails fast on the first bad token.
pub open spec fn fails_first_at(args: Seq<String>, e: DiceError, i: int) -> bool {
    &&& 0 <= i < args.len()
    &&& !(spec_parse_and_validate(args[i]@) is Parsed)
    &&& forall|j: int| 0 <= j < i ==> spec_parse_and_validate(#[trigger] args[j]@) is Parsed
    &&& error_matches(e, args[i]@)
}

/// A sequence of outcomes is a valid resolution of a batch of requests:
/// one outcome per unit roll, in request order, each valid for its request.
pub open spec fn valid_outcomes(results: Seq<RollResult>, reqs: Seq<DiceRequest>) -> bool {
    &&& results.len() == total_units(reqs, reqs.len() as int)
    &&& forall|i: int, j: int|
        0 <= i < reqs.len() && #[trigger] total_units(reqs, i) <= j < total_units(reqs, i + 1)
            ==> outcome_ok(#[trigger] results[j], reqs[i].sides, reqs[i].mode)
}

/// The text is the rendered table of some valid resolution of the batch:
/// header `Die`/`Roll`, one row per outcome, and a `Total` row that carries
/// the sum of the kept values.
pub open spec fn renders_outcomes(args: Seq<String>, out: Seq<char>) -> bool {
    exists|results: Seq<RollResult>|
        #[trigger] valid_outcomes(results, spec_requests(arg_views(args))) && out == table_text(
            spec_header(),
            spec_table_rows(results),
        )
}

/// The whole run: validate every expression (failing fast, with the first
/// failing token's error and no output), then roll every die and render the
/// table of outcomes with their total.
#[verifier::rlimit(60)]
pub fn execute_roll(dice_args: &[String]) -> (r: Result<String, DiceError>)
    ensures
        match r {
            Ok(out) => all_parse(arg_views(dice_args@)) && renders_outcomes(dice_args@, out@),
            Err(e) => exists|i: int| #[trigger] fails_first_at(dice_args@, e, i),
        },
{
    let n = dice_args.len();
    let mut requests: Vec<DiceRequest> = Vec::new();
    let mut i: usize = 0;
    while i < n
        invariant
            n == dice_args@.len(),
            i <= n,
            requests@.len() == i,
            forall|j: int| 0 <= j < i ==> spec_parse_and_validate(
                #[trigger] dice_args@[j]@,
            ) is Parsed,
            forall|j: int| 0 <= j < i ==> #[trigger] requests@[j] == spec_request_of(
                dice_args@[j]@,
            ),
        decreases n - i,
    {
        let arg: &String = &dice_args[i];
        match parse_and_validate(arg.as_str()) {
            Ok(req) => {
                requests.push(req);
            },
            Err(e) => {
                proof {
                    assert(fails_first_at(dice_args@, e, i as int));
                }
                return Err(e);
            },
        }
        i = i + 1;
    }
    proof {
        assert forall|j: int| 0 <= j < requests@.len() implies (#[trigger] requests@[j]).sides
            >= 1 by {
            assert(spec_parse_and_validate(dice_args@[j]@) is Parsed);
        }
        assert(requests@ =~= spec_requests(arg_views(dice_args@)));
    }
    let results = roll_dice(requests.as_slice());
    let total = total_kept(&results);
    let mut rows: Vec<Vec<String>> = Vec::new();
    let mut k: usize = 0;
    while k < results.len()
        invariant
            k <= results@.len(),
            rows@.len() == k,
            forall|j: int| 0 <= j < k ==> (#[trigger] rows@[j]).deep_view() == spec_rows(
                results@,
            )[j],
        decreases results@.len() - k,
    {
        let res = results[k];
        let mut row: Vec<String> = Vec::new();
        row.push(die_label(&res));
        row.push(roll_cell(&res));
        let ghost prev = rows@;
        rows.push(row);
        proof {
            assert forall|j: int| 0 <= j < k + 1 implies (#[trigger] rows@[j]).deep_view()
                == spec_rows(results@)[j] by {
                if j < k {
                    assert(rows@[j] == prev[j]);
                } else {
                    assert(rows@[j] == row);
                    assert(row.deep_view() =~= spec_rows(results@)[j]);
                }
            }
        }
        k = k + 1;
    }
    let mut total_row: Vec<String> = Vec::new();
    total_row.push(String::from_str("Total"));
    total_row.push(u128_string(total));
    let ghost prev = rows@;
    rows.push(total_row);
    let mut header: Vec<String> = Vec::new();
    header.push(String::from_str("Die"));
    header.push(String::from_str("Roll"));
    let out = render_table(&header, &rows);
    proof {
        assert(header.deep_view() =~= spec_header());
        assert(total_row.deep_view() =~= spec_total_row(results@));
        assert forall|j: int| 0 <= j < rows@.len() implies (#[trigger] rows@[j]).deep_view()
            == spec_table_rows(results@)[j] by {
            if j < results@.len() {
                assert(rows@[j] == prev[j]);
            } else {
                assert(rows@[j] == total_row);
            }
        }
        assert(rows.deep_view() =~= spec_table_rows(results@));
        assert(valid_outcomes(results@, spec_requests(arg_views(dice_args@))));
        assert(renders_outcomes(dice_args@, out@));
    }
    Ok(out)
}

} // verus!
