use vstd::prelude::*;
use vstd::slice::slice_subrange;
use crate::cnc::location::Location;
use crate::cnc::program::{CoordinateSystemType, Instruction, ProgramLine, UnitSystem, Winding};
use crate::cnc::text::{
    all_digits, chars_of, has_newline_at, lemma_lines_step_last, lemma_lines_step_newline, lines,
    strip_cr, trim, trim_chars, is_ascii_digit, is_digit, parse_u32, slice_eq, spec_parse_u32,
    strip_prefix, strip_prefix_chars,
};

verus! {

#[derive(Clone, Copy, Debug, PartialEq, Eq, Structural)]
pub enum ParseError {
    UnknownInstruction,
    UnsupportedUnitSystem,
    UnsupportedWinding,
    InvalidLocation,
    InvalidLineNumber,
    InvalidMovementSpeed,
    InvalidRotationSpeed,
    InstructionSyntaxError,
}

/// The first line of the source that does not parse (counted from 0), and why.
#[derive(Clone, Copy, Debug, PartialEq, Eq, Structural)]
pub struct LineParseError {
    pub line_number: usize,
    pub error: ParseError,
}

/// Number of decimal digits at the start of `s`.
pub open spec fn digit_run(s: Seq<char>) -> nat
    decreases s.len(),
{
    if s.len() > 0 && is_digit(s[0]) {
        1 + digit_run(s.drop_first())
    } else {
        0
    }
}

/// The line number (or speed) at the start of `s` and how many digits it
/// takes: at least one and at most 255 digits, whose value fits in a `u32`.
pub open spec fn spec_prefix_number(s: Seq<char>) -> Option<(u32, nat)> {
    let n = digit_run(s);
    if n > 255 {
        None
    } else {
        match spec_parse_u32(s.take(n as int)) {
            Some(v) => Some((v, n)),
            None => None,
        }
    }
}

pub open spec fn spec_unit_system(s: Seq<char>) -> Option<Result<ProgramLine, ParseError>> {
    match strip_prefix(s, seq!['%', 'G']) {
        None => None,
        Some(label) => Some(
            if label == seq!['7', '1'] {
                Ok(ProgramLine::UnitSystem(UnitSystem::Metric))
            } else {
                Err(ParseError::UnsupportedUnitSystem)
            },
        ),
    }
}

pub open spec fn spec_coordinate_system_type(s: Seq<char>) -> Option<Result<Instruction, ParseError>> {
    if s == seq!['G', '4', '0', 'G', '9', '0'] {
        Some(Ok(Instruction::CoordinateSystemType(CoordinateSystemType::Global)))
    } else {
        None
    }
}

pub open spec fn spec_movement_speed(s: Seq<char>) -> Option<Result<Instruction, ParseError>> {
    match strip_prefix(s, seq!['F']) {
        None => None,
        Some(rest) => Some(
            match spec_parse_u32(rest) {
                Some(v) => Ok(Instruction::MovementSpeed(v)),
                None => Err(ParseError::InvalidMovementSpeed),
            },
        ),
    }
}

pub open spec fn spec_winding(s: Seq<char>) -> Option<Result<Instruction, ParseError>> {
    if s == seq!['M', '0', '3'] {
        Some(Ok(Instruction::Winding(Winding::CW)))
    } else {
        None
    }
}

/// `S`, a speed, then either nothing or a winding suffix (`M03`), which
/// makes it a rotation speed together with a winding.
pub open spec fn spec_rotation_speed_and_optional_winding(s: Seq<char>) -> Option<
    Result<Instruction, ParseError>,
> {
    match strip_prefix(s, seq!['S']) {
        None => None,
        Some(rest) => match spec_prefix_number(rest) {
            None => Some(Err(ParseError::InvalidRotationSpeed)),
            Some((speed, digits)) => if rest.len() == digits {
                Some(Ok(Instruction::RotationSpeed(speed)))
            } else {
                match spec_winding(rest.skip(digits as int)) {
                    None => Some(Err(ParseError::InstructionSyntaxError)),
                    Some(w) => Some(
                        match w {
                            Ok(Instruction::Winding(winding)) => Ok(
                                Instruction::RotationSpeedAndWinding {
                                    rotation_speed: speed,
                                    winding,
                                },
                            ),
                            _ => w,
                        },
                    ),
                }
            },
        },
    }
}

pub open spec fn spec_move(s: Seq<char>, prefix: Seq<char>, slow: bool) -> Option<
    Result<Instruction, ParseError>,
> {
    match strip_prefix(s, prefix) {
        None => None,
        Some(rest) => Some(
            match Location::spec_parse(rest) {
                Some(l) => Ok(
                    if slow {
                        Instruction::MoveSlow(l)
                    } else {
                        Instruction::MoveFast(l)
                    },
                ),
                None => Err(ParseError::InvalidLocation),
            },
        ),
    }
}

pub open spec fn spec_exact(s: Seq<char>, word: Seq<char>, i: Instruction) -> Option<
    Result<Instruction, ParseError>,
> {
    if s == word {
        Some(Ok(i))
    } else {
        None
    }
}

pub open spec fn or_else<T>(a: Option<T>, b: Option<T>) -> Option<T> {
    match a {
        Some(x) => Some(x),
        None => b,
    }
}

/// Texts on which reading an instruction panics: a move with no location.
pub open spec fn is_bare_move(s: Seq<char>) -> bool {
    s == seq!['G', '0', '0'] || s == seq!['G', '0', '1']
}

/// An instruction with its line number stripped: the readers below are
/// tried in turn and the first that recognises the text decides.
pub open spec fn spec_clean_numbered_instruction(s: Seq<char>) -> Result<Instruction, ParseError> {
    match or_else(
        spec_coordinate_system_type(s),
        or_else(
            spec_movement_speed(s),
            or_else(
                spec_rotation_speed_and_optional_winding(s),
                or_else(
                    spec_winding(s),
                    or_else(
                        spec_move(s, seq!['G', '0', '0'], false),
                        or_else(
                            spec_move(s, seq!['G', '0', '1'], true),
                            or_else(
                                spec_exact(s, seq!['M', '0', '5'], Instruction::TurnOff),
                                spec_exact(s, seq!['M', '3', '0'], Instruction::End),
                            ),
                        ),
                    ),
                ),
            ),
        ),
    ) {
        Some(r) => r,
        None => Err(ParseError::UnknownInstruction),
    }
}

/// `N`, a line number, then the instruction with its number stripped.
pub open spec fn spec_numbered_instruction(s: Seq<char>) -> Option<Result<ProgramLine, ParseError>> {
    match strip_prefix(s, seq!['N']) {
        None => None,
        Some(rest) => Some(
            match spec_prefix_number(rest) {
                Some((number, digits)) => match spec_clean_numbered_instruction(
                    rest.skip(digits as int),
                ) {
                    Ok(instruction) => Ok(ProgramLine::Instruction { number, instruction }),
                    Err(_) => Err(ParseError::UnknownInstruction),
                },
                None => Err(ParseError::InvalidLineNumber),
            },
        ),
    }
}

/// One trimmed line of a program.
pub open spec fn spec_parse_instruction(s: Seq<char>) -> Result<ProgramLine, ParseError> {
    match or_else(spec_unit_system(s), spec_numbered_instruction(s)) {
        Some(r) => r,
        None => Err(ParseError::UnknownInstruction),
    }
}

proof fn lemma_digit_run_bound(s: Seq<char>)
    ensures
        digit_run(s) <= s.len(),
        all_digits(s.take(digit_run(s) as int)),
        digit_run(s) < s.len() ==> !is_digit(s[digit_run(s) as int]),
    decreases s.len(),
{
    if s.len() > 0 && is_digit(s[0]) {
        lemma_digit_run_bound(s.drop_first());
        let n = digit_run(s) as int;
        assert forall|i: int| 0 <= i < n implies #[trigger] is_digit(s.take(n)[i]) by {
            if i > 0 {
                assert(s.take(n)[i] == s.drop_first().take(n - 1)[i - 1]);
            }
        }
        if n < s.len() {
            assert(s[n] == s.drop_first()[n - 1]);
        }
    }
}

proof fn lemma_digit_run_of_prefix(s: Seq<char>, k: int)
    requires
        0 <= k <= s.len(),
        all_digits(s.take(k)),
        k < s.len() ==> !is_digit(s[k]),
    ensures
        digit_run(s) == k,
    decreases s.len(),
{
    if k > 0 {
        assert(is_digit(s.take(k)[0]));
        assert forall|i: int| 0 <= i < k - 1 implies #[trigger] is_digit(
            s.drop_first().take(k - 1)[i],
        ) by {
            assert(s.drop_first().take(k - 1)[i] == s.take(k)[i + 1]);
        }
        if k < s.len() {
            assert(s.drop_first()[k - 1] == s[k]);
        }
        lemma_digit_run_of_prefix(s.drop_first(), k - 1);
    } else {
        if s.len() > 0 {
            assert(!is_digit(s[0]));
        }
    }
}

pub fn parse_prefix_number(source: &[char]) -> (res: Option<(u32, u8)>)
    ensures
        match res {
            Some((n, d)) => spec_prefix_number(source@) == Some((n, d as nat)),
            None => spec_prefix_number(source@) is None,
        },
{
    let mut digit_count: u8 = 0;
    let mut i: usize = 0;
    while i < source.len()
        invariant_except_break
            i == digit_count,
            i <= source.len(),
            all_digits(source@.take(i as int)),
        ensures
            i == digit_count,
            i <= source.len(),
            all_digits(source@.take(i as int)),
            i < source.len() ==> !is_digit(source@[i as int]),
        decreases source.len() - i,
    {
        if is_ascii_digit(source[i]) {
            if digit_count == 255 {
                proof {
                    assert forall|j: int| 0 <= j < 256 implies #[trigger] is_digit(
                        source@.take(256)[j],
                    ) by {
                        if j < 255 {
                            assert(source@.take(256)[j] == source@.take(255)[j]);
                        }
                    }
                    lemma_digit_run_bound(source@);
                    let n = digit_run(source@) as int;
                    if n < 256 {
                        assert(source@.take(256)[n] == source@[n]);
                    }
                }
                return None;
            }
            assert forall|j: int| 0 <= j < i + 1 implies #[trigger] is_digit(
                source@.take(i + 1)[j],
            ) by {
                if j < i {
                    assert(source@.take(i + 1)[j] == source@.take(i as int)[j]);
                }
            }
            digit_count = digit_count + 1;
            i = i + 1;
        } else {
            break;
        }
    }
    proof {
        lemma_digit_run_of_prefix(source@, i as int);
    }
    let digits = slice_subrange(source, 0, i);
    assert(digits@ =~= source@.take(i as int));
    match parse_u32(digits) {
        Some(number) => Some((number, digit_count)),
        None => None,
    }
}


fn parse_unit_system(source: &[char]) -> (r: Option<Result<ProgramLine, ParseError>>)
    ensures
        r == spec_unit_system(source@),
{
    let prefix = ['%', 'G'];
    assert(prefix@ =~= seq!['%', 'G']);
    match strip_prefix_chars(source, &prefix) {
        None => None,
        Some(label) => {
            let metric = ['7', '1'];
            assert(metric@ =~= seq!['7', '1']);
            Some(
                if slice_eq(label, &metric) {
                    Ok(ProgramLine::UnitSystem(UnitSystem::Metric))
                } else {
                    Err(ParseError::UnsupportedUnitSystem)
                },
            )
        },
    }
}


fn parse_coordinate_system_type(source: &[char]) -> (r: Option<Result<Instruction, ParseError>>)
    ensures
        r == spec_coordinate_system_type(source@),
{
    let word = ['G', '4', '0', 'G', '9', '0'];
    assert(word@ =~= seq!['G', '4', '0', 'G', '9', '0']);
    if slice_eq(source, &word) {
        Some(Ok(Instruction::CoordinateSystemType(CoordinateSystemType::Global)))
    } else {
        None
    }
}

fn parse_movement_speed(source: &[char]) -> (r: Option<Result<Instruction, ParseError>>)
    ensures
        r == spec_movement_speed(source@),
{
    let prefix = ['F'];
    assert(prefix@ =~= seq!['F']);
    let rest = strip_prefix_chars(source, &prefix)?;
    match parse_u32(rest) {
        Some(speed) => Some(Ok(Instruction::MovementSpeed(speed))),
        None => Some(Err(ParseError::InvalidMovementSpeed)),
    }
}

fn parse_winding(source: &[char]) -> (r: Option<Result<Instruction, ParseError>>)
    ensures
        r == spec_winding(source@),
{
    let word = ['M', '0', '3'];
    assert(word@ =~= seq!['M', '0', '3']);
    if slice_eq(source, &word) {
        Some(Ok(Instruction::Winding(Winding::CW)))
    } else {
        None
    }
}

fn parse_rotation_speed_and_optional_winding(source: &[char]) -> (r: Option<
    Result<Instruction, ParseError>,
>)
    ensures
        r == spec_rotation_speed_and_optional_winding(source@),
{
    let prefix = ['S'];
    assert(prefix@ =~= seq!['S']);
    let source = strip_prefix_chars(source, &prefix)?;
    let Some((rotation_speed, speed_digits)) = parse_prefix_number(source) else {
        return Some(Err(ParseError::InvalidRotationSpeed));
    };
    if source.len() == speed_digits as usize {
        return Some(Ok(Instruction::RotationSpeed(rotation_speed)));
    }
    proof {
        lemma_digit_run_bound(source@);
    }
    let suffix = slice_subrange(source, speed_digits as usize, source.len());
    assert(suffix@ =~= source@.skip(speed_digits as int));
    let Some(winding) = parse_winding(suffix) else {
        return Some(Err(ParseError::InstructionSyntaxError));
    };
    Some(
        match winding {
            Ok(Instruction::Winding(winding)) => Ok(
                Instruction::RotationSpeedAndWinding { rotation_speed, winding },
            ),
            _ => winding,
        },
    )
}

fn parse_move(source: &[char], prefix: &[char], slow: bool) -> (r: Option<
    Result<Instruction, ParseError>,
>)
    requires
        source@ != prefix@,
    ensures
        r == spec_move(source@, prefix@, slow),
{
    let rest = strip_prefix_chars(source, prefix)?;
    assert(rest@.len() > 0) by {
        if rest@.len() == 0 {
            assert(source@ =~= prefix@);
        }
    }
    match Location::parse_chars(rest) {
        Ok(location) => Some(
            Ok(
                if slow {
                    Instruction::MoveSlow(location)
                } else {
                    Instruction::MoveFast(location)
                },
            ),
        ),
        Err(_) => Some(Err(ParseError::InvalidLocation)),
    }
}

fn parse_move_fast(source: &[char]) -> (r: Option<Result<Instruction, ParseError>>)
    requires
        source@ != seq!['G', '0', '0'],
    ensures
        r == spec_move(source@, seq!['G', '0', '0'], false),
{
    let prefix = ['G', '0', '0'];
    assert(prefix@ =~= seq!['G', '0', '0']);
    parse_move(source, &prefix, false)
}

fn parse_move_slow(source: &[char]) -> (r: Option<Result<Instruction, ParseError>>)
    requires
        source@ != seq!['G', '0', '1'],
    ensures
        r == spec_move(source@, seq!['G', '0', '1'], true),
{
    let prefix = ['G', '0', '1'];
    assert(prefix@ =~= seq!['G', '0', '1']);
    parse_move(source, &prefix, true)
}

fn parse_turn_off(source: &[char]) -> (r: Option<Result<Instruction, ParseError>>)
    ensures
        r == spec_exact(source@, seq!['M', '0', '5'], Instruction::TurnOff),
{
    let word = ['M', '0', '5'];
    assert(word@ =~= seq!['M', '0', '5']);
    if slice_eq(source, &word) {
        Some(Ok(Instruction::TurnOff))
    } else {
        None
    }
}

fn parse_end(source: &[char]) -> (r: Option<Result<Instruction, ParseError>>)
    ensures
        r == spec_exact(source@, seq!['M', '3', '0'], Instruction::End),
{
    let word = ['M', '3', '0'];
    assert(word@ =~= seq!['M', '3', '0']);
    if slice_eq(source, &word) {
        Some(Ok(Instruction::End))
    } else {
        None
    }
}

/// Reads an instruction with its line number stripped.
pub fn parse_clean_numbered_instruction(source: &[char]) -> (r: Result<Instruction, ParseError>)
    requires
        !is_bare_move(source@),
    ensures
        r == spec_clean_numbered_instruction(source@),
{
    if let Some(r) = parse_coordinate_system_type(source) {
        return r;
    }
    if let Some(r) = parse_movement_speed(source) {
        return r;
    }
    if let Some(r) = parse_rotation_speed_and_optional_winding(source) {
        return r;
    }
    if let Some(r) = parse_winding(source) {
        return r;
    }
    if let Some(r) = parse_move_fast(source) {
        return r;
    }
    if let Some(r) = parse_move_slow(source) {
        return r;
    }
    if let Some(r) = parse_turn_off(source) {
        return r;
    }
    if let Some(r) = parse_end(source) {
        return r;
    }
    Err(ParseError::UnknownInstruction)
}

/// A numbered line whose instruction is a move with no location: reading
/// it panics.
pub open spec fn is_bare_move_line(s: Seq<char>) -> bool {
    match strip_prefix(s, seq!['N']) {
        None => false,
        Some(rest) => match spec_prefix_number(rest) {
            Some((_, digits)) => is_bare_move(rest.skip(digits as int)),
            None => false,
        },
    }
}

/// Whether reading this trimmed line would meet a move with no location.
pub fn bare_move_line(source: &[char]) -> (b: bool)
    ensures
        b == is_bare_move_line(source@),
{
    let prefix = ['N'];
    assert(prefix@ =~= seq!['N']);
    let Some(source) = strip_prefix_chars(source, &prefix) else {
        return false;
    };
    let Some((_, digit_count)) = parse_prefix_number(source) else {
        return false;
    };
    proof {
        lemma_digit_run_bound(source@);
    }
    let instruction = slice_subrange(source, digit_count as usize, source.len());
    assert(instruction@ =~= source@.skip(digit_count as int));
    let fast = ['G', '0', '0'];
    let slow = ['G', '0', '1'];
    assert(fast@ =~= seq!['G', '0', '0']);
    assert(slow@ =~= seq!['G', '0', '1']);
    slice_eq(instruction, &fast) || slice_eq(instruction, &slow)
}

fn parse_numbered_instruction(source: &[char]) -> (r: Option<Result<ProgramLine, ParseError>>)
    requires
        !is_bare_move_line(source@),
    ensures
        r == spec_numbered_instruction(source@),
{
    let prefix = ['N'];
    assert(prefix@ =~= seq!['N']);
    let source = strip_prefix_chars(source, &prefix)?;
    Some(
        if let Some((number, digit_count)) = parse_prefix_number(source) {
            proof {
                lemma_digit_run_bound(source@);
            }
            let instruction = slice_subrange(source, digit_count as usize, source.len());
            assert(instruction@ =~= source@.skip(digit_count as int));
            if let Ok(data) = parse_clean_numbered_instruction(instruction) {
                Ok(ProgramLine::Instruction { number, instruction: data })
            } else {
                Err(ParseError::UnknownInstruction)
            }
        } else {
            Err(ParseError::InvalidLineNumber)
        },
    )
}

/// Reads one trimmed line of a program.
pub fn parse_instruction(source: &[char]) -> (r: Result<ProgramLine, ParseError>)
    requires
        !is_bare_move_line(source@),
    ensures
        r == spec_parse_instruction(source@),
{
    if let Some(r) = parse_unit_system(source) {
        return r;
    }
    if let Some(r) = parse_numbered_instruction(source) {
        return r;
    }
    Err(ParseError::UnknownInstruction)
}


/// Every line of `source`, trimmed, read by `spec_parse_instruction`.
pub open spec fn line_result(source: Seq<char>, i: int) -> Result<ProgramLine, ParseError> {
    spec_parse_instruction(trim(lines(source)[i]))
}

/// Every line of the source reads.
pub open spec fn source_parses(source: Seq<char>) -> bool {
    forall|i: int| 0 <= i < lines(source).len() ==> #[trigger] line_result(source, i) is Ok
}

/// The lines of a source that reads, in order.
pub open spec fn parsed_lines(source: Seq<char>) -> Seq<ProgramLine> {
    Seq::new(lines(source).len(), |i: int| line_result(source, i)->Ok_0)
}

/// `e` names the first line of the source that does not read, and why.
pub open spec fn is_first_error(source: Seq<char>, e: LineParseError) -> bool {
    &&& e.line_number < lines(source).len()
    &&& line_result(source, e.line_number as int) == Err::<ProgramLine, ParseError>(e.error)
    &&& forall|j: int| 0 <= j < e.line_number ==> #[trigger] line_result(source, j) is Ok
}

/// Some line, reached with every line before it read, is a bare move:
/// reading the source panics there.
pub open spec fn reaches_bare_move(source: Seq<char>) -> bool {
    exists|i: int|
        0 <= i < lines(source).len() && #[trigger] is_bare_move_line(trim(lines(source)[i]))
            && forall|j: int| 0 <= j < i ==> #[trigger] line_result(source, j) is Ok
}

/// A bare move line does not read.
proof fn lemma_bare_move_line_fails(s: Seq<char>)
    requires
        is_bare_move_line(s),
    ensures
        spec_parse_instruction(s) is Err,
{
    let rest = strip_prefix(s, seq!['N'])->Some_0;
    assert(s.take(1)[0] == s[0]);
    assert(s[0] == 'N');
    assert(s.take(2) != seq!['%', 'G']) by {
        assert(s.take(2)[0] == 'N');
    }
    let (number, digits) = spec_prefix_number(rest)->Some_0;
    let t = rest.skip(digits as int);
    assert(strip_prefix(t, seq!['F']) is None) by {
        assert(t.take(1)[0] == t[0]);
    }
    assert(strip_prefix(t, seq!['S']) is None) by {
        assert(t.take(1)[0] == t[0]);
    }
    if t == seq!['G', '0', '0'] {
        assert(strip_prefix(t, seq!['G', '0', '0']) == Some(Seq::<char>::empty())) by {
            assert(t.take(3) =~= t);
            assert(t.skip(3) =~= Seq::<char>::empty());
        }
    } else {
        assert(t == seq!['G', '0', '1']);
        assert(strip_prefix(t, seq!['G', '0', '0']) is None) by {
            assert(t.take(3) =~= t);
            assert(t.take(3)[2] != seq!['G', '0', '0'][2]);
        }
        assert(strip_prefix(t, seq!['G', '0', '1']) == Some(Seq::<char>::empty())) by {
            assert(t.take(3) =~= t);
            assert(t.skip(3) =~= Seq::<char>::empty());
        }
    }
    assert(Location::spec_parse(Seq::<char>::empty()) is None);
}

/// Reads the lines in order until one does not read (its index and why)
/// or is a bare move (its index and no reason).
fn read_lines(source: &str) -> (res: Result<Vec<ProgramLine>, (usize, Option<ParseError>)>)
    ensures
        match res {
            Ok(v) => source_parses(source@) && v@ == parsed_lines(source@),
            Err((i, Some(error))) => is_first_error(
                source@,
                (LineParseError { line_number: i, error }),
            ) && !is_bare_move_line(trim(lines(source@)[i as int])),
            Err((i, None)) => i < lines(source@).len() && is_bare_move_line(
                trim(lines(source@)[i as int]),
            ) && forall|j: int| 0 <= j < i ==> #[trigger] line_result(source@, j) is Ok,
        },
{
    let chars = chars_of(source);
    let s = chars.as_slice();
    let mut result: Vec<ProgramLine> = Vec::new();
    let mut pos: usize = 0;
    let mut line_number: usize = 0;
    let ghost mut done: Seq<Seq<char>> = seq![];
    assert(s@.skip(0) =~= s@);
    while pos < s.len()
        invariant
            s@ == source@,
            pos <= s.len(),
            line_number <= pos,
            done.len() == line_number,
            result@.len() == line_number,
            lines(s@) == done + lines(s@.skip(pos as int)),
            forall|i: int|
                0 <= i < line_number ==> spec_parse_instruction(trim(done[i])) == Ok::<
                    ProgramLine,
                    ParseError,
                >(#[trigger] result@[i]),
        decreases s.len() - pos,
    {
        let mut e: usize = pos;
        while e < s.len() && s[e] != '\n'
            invariant
                pos <= e <= s.len(),
                forall|j: int| pos <= j < e ==> s@[j] != '\n',
            decreases s.len() - e,
        {
            e = e + 1;
        }
        let ghost t = s@.skip(pos as int);
        let line_end: usize = if e < s.len() && e > pos && s[e - 1] == '\r' {
            e - 1
        } else {
            e
        };
        let line = slice_subrange(s, pos, line_end);
        let ghost rest_pos: int = if e < s.len() {
            e + 1
        } else {
            e as int
        };
        proof {
            if e < s.len() {
                assert(has_newline_at(t, e - pos)) by {
                    assert forall|j: int| 0 <= j < e - pos implies t[j] != '\n' by {
                        assert(t[j] == s@[pos + j]);
                    }
                }
                lemma_lines_step_newline(t, e - pos);
                assert(t.skip(e - pos + 1) =~= s@.skip(e + 1));
                assert(line@ =~= strip_cr(t.take(e - pos)));
            } else {
                assert forall|j: int| 0 <= j < t.len() implies t[j] != '\n' by {
                    assert(t[j] == s@[pos + j]);
                }
                lemma_lines_step_last(t);
                assert(line@ =~= t);
                assert(s@.skip(e as int) =~= Seq::<char>::empty());
            }
        }
        let trimmed = trim_chars(line);
        if bare_move_line(trimmed) {
            proof {
                assert(lines(s@)[line_number as int] == line@);
                assert forall|j: int| 0 <= j < line_number implies #[trigger] line_result(
                    source@,
                    j,
                ) is Ok by {
                    assert(lines(s@)[j] == done[j]);
                    assert(spec_parse_instruction(trim(done[j])) == Ok::<
                        ProgramLine,
                        ParseError,
                    >(result@[j]));
                }
            }
            return Err((line_number, None));
        }
        match parse_instruction(trimmed) {
            Ok(l) => {
                result.push(l);
            },
            Err(error) => {
                proof {
                    assert(lines(s@)[line_number as int] == line@);
                    assert forall|j: int| 0 <= j < line_number implies #[trigger] line_result(
                        source@,
                        j,
                    ) is Ok by {
                        assert(lines(s@)[j] == done[j]);
                        assert(spec_parse_instruction(trim(done[j])) == Ok::<
                            ProgramLine,
                            ParseError,
                        >(result@[j]));
                    }
                }
                return Err((line_number, Some(error)));
            },
        }
        proof {
            done = done.push(line@);
            assert(lines(s@) == done + lines(s@.skip(rest_pos)));
        }
        line_number = line_number + 1;
        pos = if e < s.len() {
            e + 1
        } else {
            e
        };
    }
    proof {
        assert(s@.skip(pos as int) =~= Seq::<char>::empty());
        assert(lines(s@) =~= done);
        assert forall|i: int| 0 <= i < result@.len() implies line_result(source@, i) == Ok::<
            ProgramLine,
            ParseError,
        >(#[trigger] result@[i]) by {
            assert(lines(s@)[i] == done[i]);
        }
        assert forall|i: int| 0 <= i < lines(source@).len() implies #[trigger] line_result(
            source@,
            i,
        ) is Ok by {
            assert(line_result(source@, i) == Ok::<ProgramLine, ParseError>(result@[i]));
        }
        assert(result@ =~= parsed_lines(source@));
    }
    Ok(result)
}

/// Reads a whole program: each line (as `str::lines` splits it), trimmed,
/// must be a unit system header or a numbered instruction; the first line
/// that is not gives the error, with its index. A numbered move with no
/// location on a line that is reached makes the reading panic, so such a
/// source is left out.
pub fn parse_source(source: &str) -> (res: Result<Vec<ProgramLine>, LineParseError>)
    requires
        !reaches_bare_move(source@),
    ensures
        match res {
            Ok(v) => source_parses(source@) && v@ == parsed_lines(source@),
            Err(e) => is_first_error(source@, e),
        },
{
    match read_lines(source) {
        Ok(v) => Ok(v),
        Err((line_number, Some(error))) => Err(LineParseError { line_number, error }),
        Err((line_number, None)) => {
            assert(is_bare_move_line(trim(lines(source@)[line_number as int])));
            assert(false);
            Err(LineParseError { line_number, error: ParseError::UnknownInstruction })
        },
    }
}

/// A source whose lines all read reaches no bare move.
proof fn lemma_parses_reaches_no_bare_move(source: Seq<char>)
    requires
        source_parses(source),
    ensures
        !reaches_bare_move(source),
{
    if reaches_bare_move(source) {
        let i = choose|i: int|
            0 <= i < lines(source).len() && #[trigger] is_bare_move_line(trim(lines(source)[i]))
                && forall|j: int| 0 <= j < i ==> #[trigger] line_result(source, j) is Ok;
        lemma_bare_move_line_fails(trim(lines(source)[i]));
        assert(line_result(source, i) is Ok);
    }
}

/// A source that stops at a line that does not read reaches no bare move.
proof fn lemma_error_reaches_no_bare_move(source: Seq<char>, e: LineParseError)
    requires
        is_first_error(source, e),
        !is_bare_move_line(trim(lines(source)[e.line_number as int])),
    ensures
        !reaches_bare_move(source),
{
    if reaches_bare_move(source) {
        let i = choose|i: int|
            0 <= i < lines(source).len() && #[trigger] is_bare_move_line(trim(lines(source)[i]))
                && forall|j: int| 0 <= j < i ==> #[trigger] line_result(source, j) is Ok;
        lemma_bare_move_line_fails(trim(lines(source)[i]));
        if i < e.line_number {
            assert(line_result(source, i) is Ok);
        } else if i > e.line_number {
            assert(line_result(source, e.line_number as int) is Ok);
        }
    }
}

/// Whether reading `source` would reach a numbered move with no location.
pub fn source_reaches_bare_move(source: &str) -> (b: bool)
    ensures
        b == reaches_bare_move(source@),
{
    match read_lines(source) {
        Ok(_) => {
            proof {
                lemma_parses_reaches_no_bare_move(source@);
            }
            false
        },
        Err((line_number, Some(error))) => {
            proof {
                lemma_error_reaches_no_bare_move(
                    source@,
                    LineParseError { line_number, error },
                );
            }
            false
        },
        Err((line_number, None)) => {
            proof {
                let i = line_number as int;
                assert(0 <= i < lines(source@).len() && is_bare_move_line(
                    trim(lines(source@)[i]),
                ) && forall|j: int| 0 <= j < i ==> #[trigger] line_result(source@, j) is Ok);
            }
            true
        },
    }
}

} // verus!
