//! The dice-expression parser: the grammar `[count] "d" sides [mode]` as a
//! spec-level function on character sequences, a verified executable parser
//! that implements it, validation, and the canonical text of a request with
//! its round-trip law.

use vstd::prelude::*;
use crate::digits::{
    is_digit_char, digit_value, digit_run_len, digits_value_range, dec, lemma_dec_digits,
    lemma_digit_run_len_is, lemma_value_of_dec, u32_string,
};

verus! {

/// How a single die roll is resolved.
#[derive(Debug, PartialEq, Eq, Structural, Clone, Copy)]
pub enum RollMode {
    Normal,
    Advantage,
    Disadvantage,
}

/// One validated dice expression: roll `count` dice with `sides` sides each.
#[derive(Debug, PartialEq, Eq, Structural, Clone, Copy)]
pub struct DiceRequest {
    pub count: u32,
    pub sides: u32,
    pub mode: RollMode,
}

/// Why a dice expression was rejected.
#[derive(Debug)]
pub enum DiceError {
    /// The token does not match the grammar at all.
    Syntax { token: String },
    /// The grammar matched a prefix, but characters remain after it.
    TrailingContent { token: String, rest: String },
    /// The expression asks for dice with zero sides.
    ZeroSides,
}

/// What parsing and validating one token yields, at the specification level.
pub enum ParseOutcome {
    Parsed { req: DiceRequest },
    BadSyntax,
    Trailing { rest: Seq<char> },
    ZeroSides,
}

/// The grammar `[count] "d" sides [mode]`, read greedily from the front of
/// `s`: an optional run of digits that fits in a `u32` is the count
/// (defaulting to 1 when absent), then the literal separator `d`, then a
/// nonempty run of digits that fits in a `u32` is the number of sides, then
/// at most one mode letter, `a` for advantage or `d` for disadvantage.
/// Yields the request and the unconsumed remainder, or nothing on a text
/// that does not match.
pub open spec fn spec_parse_expr(s: Seq<char>) -> Option<(DiceRequest, Seq<char>)> {
    let k = digit_run_len(s, 0);
    let has_count = k > 0 && digits_value_range(s, 0, k) <= u32::MAX;
    let p = if has_count {
        k
    } else {
        0
    };
    if p < s.len() && s[p] == 'd' {
        let m = digit_run_len(s, p + 1);
        let v = digits_value_range(s, p + 1, p + 1 + m);
        if m > 0 && v <= u32::MAX {
            let count: u32 = if has_count {
                digits_value_range(s, 0, k) as u32
            } else {
                1u32
            };
            let e = p + 1 + m;
            let mode = if e < s.len() && s[e] == 'a' {
                RollMode::Advantage
            } else if e < s.len() && s[e] == 'd' {
                RollMode::Disadvantage
            } else {
                RollMode::Normal
            };
            let f = if e < s.len() && (s[e] == 'a' || s[e] == 'd') {
                e + 1
            } else {
                e
            };
            Some((DiceRequest { count, sides: v as u32, mode }, s.skip(f)))
        } else {
            None
        }
    } else {
        None
    }
}

/// Parsing followed by validation: the whole token must be consumed, the
/// parsed number of sides must be nonzero, and the count must be at least
/// one — an explicit zero count names no dice and fails as a syntax error,
/// so every validated request carries `count >= 1` and `sides >= 1`.
pub open spec fn spec_parse_and_validate(s: Seq<char>) -> ParseOutcome {
    match spec_parse_expr(s) {
        Option::None => ParseOutcome::BadSyntax,
        Option::Some((req, rest)) => if rest.len() > 0 {
            ParseOutcome::Trailing { rest }
        } else if req.sides == 0 {
            ParseOutcome::ZeroSides
        } else if req.count == 0 {
            ParseOutcome::BadSyntax
        } else {
            ParseOutcome::Parsed { req }
        },
    }
}

/// Reads the run of digits of `s` that starts at `start`: returns the
/// position just past the run, and the run's value when it fits in a `u32`.
fn scan_number(s: &str, start: usize) -> (r: (usize, Option<u32>))
    requires
        start <= s@.len(),
    ensures
        r.0 == start + digit_run_len(s@, start as int),
        start <= r.0 <= s@.len(),
        match r.1 {
            Some(x) => digits_value_range(s@, start as int, r.0 as int) == x,
            None => digits_value_range(s@, start as int, r.0 as int) > u32::MAX,
        },
{
    let len = s.unicode_len();
    let mut i: usize = start;
    let mut val: u64 = 0;
    let mut over = false;
    loop
        invariant
            start <= i <= len,
            len == s@.len(),
            forall|j: int| start <= j < i ==> is_digit_char(#[trigger] s@[j]),
            !over ==> val == digits_value_range(s@, start as int, i as int) && val <= u32::MAX
                as u64,
            over ==> digits_value_range(s@, start as int, i as int) > u32::MAX,
        ensures
            start <= i <= len,
            len == s@.len(),
            forall|j: int| start <= j < i ==> is_digit_char(#[trigger] s@[j]),
            i == len || !is_digit_char(s@[i as int]),
            !over ==> val == digits_value_range(s@, start as int, i as int) && val <= u32::MAX
                as u64,
            over ==> digits_value_range(s@, start as int, i as int) > u32::MAX,
        decreases len - i,
    {
        if i >= len {
            break;
        }
        let c = s.get_char(i);
        let u = c as u32;
        if u < 48 || u > 57 {
            break;
        }
        assert(is_digit_char(s@[i as int]));
        let d = (u - 48) as u64;
        assert(digits_value_range(s@, start as int, i as int + 1) == digits_value_range(
            s@,
            start as int,
            i as int,
        ) * 10 + digit_value(s@[i as int]));
        if !over {
            val = val * 10 + d;
            if val > u32::MAX as u64 {
                over = true;
            }
        }
        i = i + 1;
    }
    proof {
        lemma_digit_run_len_is(s@, start as int, i as int);
    }
    if over {
        (i, None)
    } else {
        (i, Some(val as u32))
    }
}

/// Parses the grammar from the front of `s`, returning the unconsumed
/// remainder and the request, or a syntax error naming the token.
pub fn parse_dice_expression(s: &str) -> (r: Result<(String, DiceRequest), DiceError>)
    ensures
        match r {
            Ok(pair) => spec_parse_expr(s@) == Some((pair.1, pair.0@)),
            Err(e) => spec_parse_expr(s@) is None && (e matches DiceError::Syntax { token }
                && token@ == s@),
        },
{
    let len = s.unicode_len();
    let (i1, v1) = scan_number(s, 0);
    let mut count: u32 = 1;
    let mut pos: usize = 0;
    if i1 > 0 {
        match v1 {
            Some(x) => {
                count = x;
                pos = i1;
            },
            None => {},
        }
    }
    if pos >= len {
        return Err(DiceError::Syntax { token: s.to_owned() });
    }
    let c = s.get_char(pos);
    if c != 'd' {
        return Err(DiceError::Syntax { token: s.to_owned() });
    }
    let (i2, v2) = scan_number(s, pos + 1);
    if i2 == pos + 1 {
        return Err(DiceError::Syntax { token: s.to_owned() });
    }
    let sides: u32 = match v2 {
        Some(x) => x,
        None => {
            return Err(DiceError::Syntax { token: s.to_owned() });
        },
    };
    let mut mode = RollMode::Normal;
    let mut end = i2;
    if i2 < len {
        let mc = s.get_char(i2);
        if mc == 'a' {
            mode = RollMode::Advantage;
            end = i2 + 1;
        } else if mc == 'd' {
            mode = RollMode::Disadvantage;
            end = i2 + 1;
        }
    }
    let rest = s.substring_char(end, len).to_owned();
    let req = DiceRequest { count, sides, mode };
    proof {
        assert(rest@ =~= s@.skip(end as int));
        assert(spec_parse_expr(s@) == Some((req, s@.skip(end as int))));
    }
    Ok((rest, req))
}

/// Parses one token and validates it: the whole token must be consumed and
/// the number of sides must be nonzero.
pub fn parse_and_validate(s: &str) -> (r: Result<DiceRequest, DiceError>)
    ensures
        match r {
            Ok(req) => spec_parse_and_validate(s@) == (ParseOutcome::Parsed { req }) && req.count
                >= 1 && req.sides >= 1,
            Err(e) => match e {
                DiceError::Syntax { token } => spec_parse_and_validate(s@) is BadSyntax && token@
                    == s@,
                DiceError::TrailingContent { token, rest } => spec_parse_and_validate(s@)
                    == (ParseOutcome::Trailing { rest: rest@ }) && token@ == s@,
                DiceError::ZeroSides => spec_parse_and_validate(s@) is ZeroSides,
            },
        },
{
    let (rest, req) = match parse_dice_expression(s) {
        Ok(pair) => pair,
        Err(e) => {
            return Err(e);
        },
    };
    if !rest.as_str().is_empty() {
        return Err(DiceError::TrailingContent { token: s.to_owned(), rest });
    }
    if req.sides == 0 {
        return Err(DiceError::ZeroSides);
    }
    if req.count == 0 {
        return Err(DiceError::Syntax { token: s.to_owned() });
    }
    Ok(req)
}

impl DiceError {
    /// The diagnostic line for this error, as shown to the user.
    pub open spec fn spec_message(&self) -> Seq<char> {
        match self {
            DiceError::Syntax { token } => "Error: Failed to parse dice expression '"@ + token@
                + "'. Expected format 'NdS' (e.g. 1d20, 4d8)."@,
            DiceError::TrailingContent { token, rest } => "Error: Invalid dice format '"@ + token@
                + "'. Unparsed content: '"@ + rest@ + "'"@,
            DiceError::ZeroSides => "Error: Dice cannot have 0 sides."@,
        }
    }

    /// Renders the diagnostic line for this error.
    pub fn message(&self) -> (out: String)
        ensures
            out@ == self.spec_message(),
    {
        match self {
            DiceError::Syntax { token } => {
                let mut out = String::from_str("Error: Failed to parse dice expression '");
                out.append(token.as_str());
                out.append("'. Expected format 'NdS' (e.g. 1d20, 4d8).");
                proof {
                    assert(out@ =~= self.spec_message());
                }
                out
            },
            DiceError::TrailingContent { token, rest } => {
                let mut out = String::from_str("Error: Invalid dice format '");
                out.append(token.as_str());
                out.append("'. Unparsed content: '");
                out.append(rest.as_str());
                out.append("'");
                proof {
                    assert(out@ =~= self.spec_message());
                }
                out
            },
            DiceError::ZeroSides => String::from_str("Error: Dice cannot have 0 sides."),
        }
    }
}

/// The suffix letter that the canonical text carries for a mode.
pub open spec fn spec_mode_suffix(mode: RollMode) -> Seq<char> {
    match mode {
        RollMode::Normal => Seq::empty(),
        RollMode::Advantage => seq!['a'],
        RollMode::Disadvantage => seq!['d'],
    }
}

/// The canonical text of a request: the count, the separator `d`, the number
/// of sides, and the mode letter if any.
pub open spec fn spec_canonical(req: DiceRequest) -> Seq<char> {
    dec(req.count as nat) + seq!['d'] + dec(req.sides as nat) + spec_mode_suffix(req.mode)
}

/// Renders the canonical text of a request.
pub fn canonical(req: &DiceRequest) -> (out: String)
    ensures
        out@ == spec_canonical(*req),
{
    let mut out = u32_string(req.count);
    out.append("d");
    let sides_text = u32_string(req.sides);
    out.append(sides_text.as_str());
    match req.mode {
        RollMode::Normal => {},
        RollMode::Advantage => out.append("a"),
        RollMode::Disadvantage => out.append("d"),
    }
    proof {
        reveal_strlit("d");
        reveal_strlit("a");
        assert(out@ =~= spec_canonical(*req));
    }
    out
}

/// Law: parsing the canonical text of a request yields that request back,
/// with nothing left over.
pub proof fn lemma_canonical_parse_roundtrip(req: DiceRequest)
    ensures
        spec_parse_expr(spec_canonical(req)) == Some((req, Seq::<char>::empty())),
{
    let s = spec_canonical(req);
    let cd = dec(req.count as nat);
    let sd = dec(req.sides as nat);
    let k = cd.len() as int;
    let m = sd.len() as int;
    lemma_dec_digits(req.count as nat);
    lemma_dec_digits(req.sides as nat);
    assert forall|j: int| 0 <= j < k implies s[j] == #[trigger] cd[j] by {}
    assert(s[k] == 'd');
    assert(!is_digit_char('d'));
    assert forall|j: int| k < j < k + 1 + m implies is_digit_char(#[trigger] s[j]) by {
        assert(s[j] == sd[j - (k + 1)]);
    }
    assert forall|j: int| 0 <= j < m implies s[k + 1 + j] == #[trigger] sd[j] by {}
    let e = k + 1 + m;
    assert(s.len() == e + spec_mode_suffix(req.mode).len());
    // the run of digits that forms the count
    assert forall|j: int| 0 <= j < k implies is_digit_char(#[trigger] s[j]) by {
        assert(s[j] == cd[j]);
    }
    lemma_digit_run_len_is(s, 0, k);
    lemma_value_of_dec(s, 0, req.count as nat);
    // the separator, then the run of digits that forms the sides
    lemma_digit_run_len_is(s, k + 1, e);
    lemma_value_of_dec(s, k + 1, req.sides as nat);
    // the mode letter, if any, and the empty remainder
    match req.mode {
        RollMode::Normal => {
            assert(s.skip(e) =~= Seq::<char>::empty());
        },
        RollMode::Advantage => {
            assert(s[e] == 'a');
            assert(s.skip(e + 1) =~= Seq::<char>::empty());
        },
        RollMode::Disadvantage => {
            assert(s[e] == 'd');
            assert(s.skip(e + 1) =~= Seq::<char>::empty());
        },
    }
}

/// Law: for a request with at least one die and at least one side, the
/// canonical text parses and validates back to that request.
pub proof fn lemma_canonical_validate_roundtrip(req: DiceRequest)
    requires
        req.count >= 1,
        req.sides >= 1,
    ensures
        spec_parse_and_validate(spec_canonical(req)) == (ParseOutcome::Parsed { req }),
{
    lemma_canonical_parse_roundtrip(req);
}

/// Law: a token that parses and validates round-trips: re-serializing the
/// request it yields into canonical form and re-parsing yields the same
/// request.
pub proof fn lemma_token_round_trip(s: Seq<char>, req: DiceRequest)
    requires
        spec_parse_and_validate(s) == (ParseOutcome::Parsed { req }),
    ensures
        spec_parse_and_validate(spec_canonical(req)) == (ParseOutcome::Parsed { req }),
{
    lemma_canonical_validate_roundtrip(req);
}

} // verus!
