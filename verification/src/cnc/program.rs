use vstd::prelude::*;
use vstd::slice::slice_subrange;
use crate::cnc::location::Location;
use crate::cnc::mill::{MillShape, MillType};
use crate::cnc::parser::{
    is_first_error, parse_source, parsed_lines, reaches_bare_move, source_parses,
    LineParseError,
};
use crate::cnc::text::{chars_of, lines, parse_u32, spec_parse_u32, trim};

verus! {

#[derive(Clone, Copy, Debug, PartialEq, Eq, Structural)]
pub enum UnitSystem {
    Metric,
}

#[derive(Clone, Copy, Debug, PartialEq, Eq, Structural)]
pub enum CoordinateSystemType {
    Global,
}

#[derive(Clone, Copy, Debug, PartialEq, Eq, Structural)]
pub enum Winding {
    CW,
}

/// One instruction of a numbered program line.
#[derive(Clone, Copy, Debug, PartialEq, Eq, Structural)]
pub enum Instruction {
    CoordinateSystemType(CoordinateSystemType),
    RotationSpeed(u32),
    Winding(Winding),
    RotationSpeedAndWinding { rotation_speed: u32, winding: Winding },
    MovementSpeed(u32),
    MoveFast(Location),
    MoveSlow(Location),
    TurnOff,
    End,
}

/// A line of a CNC program: the unit system header or a numbered instruction.
#[derive(Clone, Copy, Debug, PartialEq, Eq, Structural)]
pub enum ProgramLine {
    UnitSystem(UnitSystem),
    Instruction { number: u32, instruction: Instruction },
}


/// One step of a mill's work. Speeds are the program's numbers, in
/// thousandths of the mill's units.
#[derive(Clone, Copy, Debug, PartialEq, Eq, Structural)]
pub enum MillInstruction {
    RotationSpeed(u32),
    MovementSpeed(u32),
    MoveFast(Location),
    MoveSlow(Location),
}

/// `std::io::Error`, carried opaquely in `ProgramLoadError::Io`: nothing
/// here looks inside it.
#[verifier::external_type_specification]
#[verifier::external_body]
pub struct ExIoError(std::io::Error);

#[derive(Debug)]
pub enum ProgramLoadError {
    Io(std::io::Error),
    NoExtension,
    InvalidExtension,
    ParseError(LineParseError),
    StrayLine,
    LineSequence { number: u32, actual: u32 },
    UnitsNotSet,
    CoordinateSystemNotSet,
    NoEndInstruction,
    NoTurnOff,
    NoWinding,
}

/// A loaded CNC program: the mill's steps and the mill it is written for.
#[derive(Clone, Debug)]
pub struct Program {
    instructions: Vec<MillInstruction>,
    mill_shape: MillShape,
}

pub open spec fn is_unit_system(l: ProgramLine) -> bool {
    l is UnitSystem
}

pub open spec fn instruction_of(l: ProgramLine) -> Option<Instruction> {
    match l {
        ProgramLine::Instruction { instruction, .. } => Some(instruction),
        ProgramLine::UnitSystem(_) => None,
    }
}

pub open spec fn starts_with_coordinate_system(lines: Seq<ProgramLine>) -> bool {
    lines.len() > 0 && instruction_of(lines[0]) matches Some(Instruction::CoordinateSystemType(_))
}

/// What is wrong with line `actual` of the numbered part, if anything.
pub open spec fn numbering_error(l: ProgramLine, actual: int) -> Option<ProgramLoadError> {
    match l {
        ProgramLine::UnitSystem(_) => Some(ProgramLoadError::StrayLine),
        ProgramLine::Instruction { number, .. } => if number != actual {
            Some(ProgramLoadError::LineSequence { number, actual: actual as u32 })
        } else {
            None
        },
    }
}

/// Lines `k..` are numbered by their index; else the first that is not.
pub open spec fn spec_line_sequenciality_from(lines: Seq<ProgramLine>, k: int) -> Result<
    (),
    ProgramLoadError,
>
    decreases lines.len() - k,
{
    if k >= lines.len() || k < 0 {
        Ok(())
    } else {
        match numbering_error(lines[k], k) {
            Some(e) => Err(e),
            None => spec_line_sequenciality_from(lines, k + 1),
        }
    }
}

/// From line `k` on, the first winding or rotation speed decides: a
/// rotation speed before any winding is an error.
pub open spec fn spec_winding_from(lines: Seq<ProgramLine>, k: int) -> Result<(), ProgramLoadError>
    decreases lines.len() - k,
{
    if k >= lines.len() || k < 0 {
        Ok(())
    } else {
        match instruction_of(lines[k]) {
            Some(Instruction::Winding(_)) => Ok(()),
            Some(Instruction::RotationSpeedAndWinding { .. }) => Ok(()),
            Some(Instruction::RotationSpeed(_)) => Err(ProgramLoadError::NoWinding),
            _ => spec_winding_from(lines, k + 1),
        }
    }
}

/// The program must end with a turn-off and then an end instruction.
pub open spec fn spec_gracefull_exit(lines: Seq<ProgramLine>) -> Result<(), ProgramLoadError> {
    let len = lines.len();
    if len == 0 || !(instruction_of(lines[len - 1]) == Some(Instruction::End)) {
        Err(ProgramLoadError::NoEndInstruction)
    } else if len == 1 || !(instruction_of(lines[len - 2]) == Some(Instruction::TurnOff)) {
        Err(ProgramLoadError::NoTurnOff)
    } else {
        Ok(())
    }
}

/// The checks of a strict load, in order: a unit system header first; the
/// rest numbered 0, 1, ... by position; then a coordinate system line; the
/// turn-off and end at the close; no rotation speed before a winding.
pub open spec fn spec_validate_lines(lines: Seq<ProgramLine>) -> Result<(), ProgramLoadError> {
    if lines.len() == 0 || !is_unit_system(lines[0]) {
        Err(ProgramLoadError::UnitsNotSet)
    } else {
        let numbered = lines.drop_first();
        match spec_line_sequenciality_from(numbered, 0) {
            Err(e) => Err(e),
            Ok(_) => if !starts_with_coordinate_system(numbered) {
                Err(ProgramLoadError::CoordinateSystemNotSet)
            } else {
                let body = numbered.drop_first();
                match spec_gracefull_exit(body) {
                    Err(e) => Err(e),
                    Ok(_) => spec_winding_from(body, 0),
                }
            },
        }
    }
}

/// The mill step a program line stands for, if any.
pub open spec fn mill_instruction_of(l: ProgramLine) -> Option<MillInstruction> {
    match instruction_of(l) {
        Some(Instruction::RotationSpeed(speed)) => Some(MillInstruction::RotationSpeed(speed)),
        Some(Instruction::MovementSpeed(speed)) => Some(MillInstruction::MovementSpeed(speed)),
        Some(Instruction::MoveFast(location)) => Some(MillInstruction::MoveFast(location)),
        Some(Instruction::MoveSlow(location)) => Some(MillInstruction::MoveSlow(location)),
        _ => None,
    }
}

pub open spec fn option_seq<T>(o: Option<T>) -> Seq<T> {
    match o {
        Some(x) => seq![x],
        None => seq![],
    }
}

/// The mill steps of the lines, in order.
pub open spec fn mill_instructions(lines: Seq<ProgramLine>) -> Seq<MillInstruction>
    decreases lines.len(),
{
    if lines.len() == 0 {
        seq![]
    } else {
        mill_instructions(lines.drop_last()) + option_seq(mill_instruction_of(lines.last()))
    }
}

/// Rotation speed and winding on one line are not supported.
pub open spec fn has_speed_and_winding(lines: Seq<ProgramLine>) -> bool {
    exists|i: int|
        0 <= i < lines.len() && (#[trigger] instruction_of(lines[i])) matches Some(
            Instruction::RotationSpeedAndWinding { .. },
        )
}

/// The mill a file extension names: `k` ball or `f` flat, then the diameter
/// as `str::parse::<u32>` reads it.
pub open spec fn spec_program_extension(extension: Seq<char>) -> Result<MillShape, ProgramLoadError> {
    let type_ = if extension[0] == 'k' {
        Some(MillType::Ball)
    } else if extension[0] == 'f' {
        Some(MillType::Cylinder)
    } else {
        None
    };
    match type_ {
        None => Err(ProgramLoadError::InvalidExtension),
        Some(t) => match spec_parse_u32(extension.drop_first()) {
            Some(diameter) => Ok(MillShape { type_: t, diameter }),
            None => Err(ProgramLoadError::InvalidExtension),
        },
    }
}


/// The errors that checking a program's lines can give.
pub open spec fn is_validation_error(e: ProgramLoadError) -> bool {
    ||| e is StrayLine
    ||| e is LineSequence
    ||| e is UnitsNotSet
    ||| e is CoordinateSystemNotSet
    ||| e is NoEndInstruction
    ||| e is NoTurnOff
    ||| e is NoWinding
}

/// Line `i` sets a winding, alone or with a rotation speed.
pub open spec fn sets_winding(lines: Seq<ProgramLine>, i: int) -> bool {
    ||| instruction_of(lines[i]) matches Some(Instruction::Winding(_))
    ||| instruction_of(lines[i]) matches Some(Instruction::RotationSpeedAndWinding { .. })
}

/// Line `i` sets a rotation speed with no winding set on a line before it.
pub open spec fn speed_before_winding(lines: Seq<ProgramLine>, i: int) -> bool {
    &&& instruction_of(lines[i]) matches Some(Instruction::RotationSpeed(_))
    &&& forall|j: int| 0 <= j < i ==> !#[trigger] sets_winding(lines, j)
}

proof fn lemma_winding_from(lines: Seq<ProgramLine>, k: int)
    requires
        0 <= k <= lines.len(),
        forall|j: int| 0 <= j < k ==> !#[trigger] sets_winding(lines, j),
    ensures
        spec_winding_from(lines, k) == (if exists|i: int|
            k <= i < lines.len() && #[trigger] speed_before_winding(lines, i) {
            Err::<(), ProgramLoadError>(ProgramLoadError::NoWinding)
        } else {
            Ok::<(), ProgramLoadError>(())
        }),
    decreases lines.len() - k,
{
    if k < lines.len() {
        if sets_winding(lines, k) {
            assert forall|i: int| k <= i < lines.len() implies !#[trigger] speed_before_winding(
                lines,
                i,
            ) by {
                if i > k {
                    assert(sets_winding(lines, k));
                }
            }
        } else if instruction_of(lines[k]) matches Some(Instruction::RotationSpeed(_)) {
            assert(speed_before_winding(lines, k));
        } else {
            lemma_winding_from(lines, k + 1);
            if exists|i: int| k <= i < lines.len() && #[trigger] speed_before_winding(lines, i) {
                let i = choose|i: int| k <= i < lines.len() && #[trigger] speed_before_winding(
                    lines,
                    i,
                );
                assert(i != k);
            }
        }
    }
}

/// The winding check refuses a program exactly when some line sets a
/// rotation speed before any line has set a winding; lines of any other
/// kind play no part in it.
pub proof fn lemma_winding_check(lines: Seq<ProgramLine>)
    ensures
        spec_winding_from(lines, 0) == (if exists|i: int|
            0 <= i < lines.len() && #[trigger] speed_before_winding(lines, i) {
            Err::<(), ProgramLoadError>(ProgramLoadError::NoWinding)
        } else {
            Ok::<(), ProgramLoadError>(())
        }),
{
    lemma_winding_from(lines, 0);
}

proof fn lemma_sequenciality_error(lines: Seq<ProgramLine>, k: int)
    ensures
        spec_line_sequenciality_from(lines, k) matches Err(e) ==> is_validation_error(e),
    decreases lines.len() - k,
{
    if 0 <= k < lines.len() {
        lemma_sequenciality_error(lines, k + 1);
    }
}

proof fn lemma_winding_error(lines: Seq<ProgramLine>, k: int)
    ensures
        spec_winding_from(lines, k) matches Err(e) ==> is_validation_error(e),
    decreases lines.len() - k,
{
    if 0 <= k < lines.len() {
        lemma_winding_error(lines, k + 1);
    }
}

/// Checking a program's lines fails only with a validation error.
pub proof fn lemma_validation_error(lines: Seq<ProgramLine>)
    ensures
        spec_validate_lines(lines) matches Err(e) ==> is_validation_error(e),
{
    if lines.len() > 0 {
        lemma_sequenciality_error(lines.drop_first(), 0);
        if lines.len() > 1 {
            lemma_winding_error(lines.drop_first().drop_first(), 0);
        }
    }
}

impl Program {
    pub closed spec fn spec_instructions(&self) -> Seq<MillInstruction> {
        self.instructions@
    }

    pub closed spec fn spec_shape(&self) -> MillShape {
        self.mill_shape
    }

    pub fn instructions(&self) -> (r: &[MillInstruction])
        ensures
            r@ == self.spec_instructions(),
    {
        self.instructions.as_slice()
    }

    pub fn shape(&self) -> (r: MillShape)
        ensures
            r == self.spec_shape(),
    {
        self.mill_shape
    }

    pub fn validate_units(lines: &[ProgramLine]) -> (r: Result<&[ProgramLine], ProgramLoadError>)
        ensures
            match r {
                Ok(rest) => lines@.len() > 0 && is_unit_system(lines@[0]) && rest@
                    == lines@.drop_first(),
                Err(e) => (lines@.len() == 0 || !is_unit_system(lines@[0])) && e
                    is UnitsNotSet,
            },
    {
        if lines.len() == 0 {
            return Err(ProgramLoadError::UnitsNotSet);
        }
        match lines[0] {
            ProgramLine::UnitSystem(_) => {},
            _ => {
                return Err(ProgramLoadError::UnitsNotSet);
            },
        }
        let rest = slice_subrange(lines, 1, lines.len());
        assert(rest@ =~= lines@.drop_first());
        Ok(rest)
    }

    pub fn validate_coordinate_system(lines: &[ProgramLine]) -> (r: Result<
        &[ProgramLine],
        ProgramLoadError,
    >)
        ensures
            match r {
                Ok(rest) => starts_with_coordinate_system(lines@) && rest@ == lines@.drop_first(),
                Err(e) => !starts_with_coordinate_system(lines@) && e is CoordinateSystemNotSet,
            },
    {
        if lines.len() > 0 {
            if let ProgramLine::Instruction {
                instruction: Instruction::CoordinateSystemType(_),
                ..
            } = lines[0] {
                let rest = slice_subrange(lines, 1, lines.len());
                assert(rest@ =~= lines@.drop_first());
                return Ok(rest);
            }
        }
        Err(ProgramLoadError::CoordinateSystemNotSet)
    }

    pub fn validate_line_sequenciality(lines: &[ProgramLine]) -> (r: Result<(), ProgramLoadError>)
        ensures
            r == spec_line_sequenciality_from(lines@, 0),
    {
        let mut actual: usize = 0;
        while actual < lines.len()
            invariant
                actual <= lines.len(),
                spec_line_sequenciality_from(lines@, 0) == spec_line_sequenciality_from(
                    lines@,
                    actual as int,
                ),
            decreases lines.len() - actual,
        {
            match lines[actual] {
                ProgramLine::UnitSystem(_) => {
                    return Err(ProgramLoadError::StrayLine);
                },
                ProgramLine::Instruction { number, .. } => {
                    if actual != number as usize {
                        return Err(
                            ProgramLoadError::LineSequence { actual: actual as u32, number },
                        );
                    }
                },
            }
            actual = actual + 1;
        }
        Ok(())
    }

    pub fn validate_gracefull_exit(lines: &[ProgramLine]) -> (r: Result<(), ProgramLoadError>)
        ensures
            r == spec_gracefull_exit(lines@),
    {
        let len = lines.len();
        if len == 0 {
            return Err(ProgramLoadError::NoEndInstruction);
        }
        match lines[len - 1] {
            ProgramLine::Instruction { instruction: Instruction::End, .. } => {},
            _ => {
                return Err(ProgramLoadError::NoEndInstruction);
            },
        }
        if len == 1 {
            return Err(ProgramLoadError::NoTurnOff);
        }
        match lines[len - 2] {
            ProgramLine::Instruction { instruction: Instruction::TurnOff, .. } => {},
            _ => {
                return Err(ProgramLoadError::NoTurnOff);
            },
        }
        Ok(())
    }

    pub fn validate_winding(lines: &[ProgramLine]) -> (r: Result<(), ProgramLoadError>)
        ensures
            r == spec_winding_from(lines@, 0),
    {
        let mut i: usize = 0;
        while i < lines.len()
            invariant
                i <= lines.len(),
                spec_winding_from(lines@, 0) == spec_winding_from(lines@, i as int),
            decreases lines.len() - i,
        {
            match lines[i] {
                ProgramLine::Instruction { instruction, .. } => match instruction {
                    Instruction::Winding(_) => {
                        return Ok(());
                    },
                    Instruction::RotationSpeedAndWinding { .. } => {
                        return Ok(());
                    },
                    Instruction::RotationSpeed(_) => {
                        return Err(ProgramLoadError::NoWinding);
                    },
                    _ => {},
                },
                ProgramLine::UnitSystem(_) => {},
            }
            i = i + 1;
        }
        Ok(())
    }

    /// All checks of a strict load; the first that fails gives the error.
    pub fn validate_lines(lines: &[ProgramLine]) -> (r: Result<(), ProgramLoadError>)
        ensures
            r == spec_validate_lines(lines@),
    {
        let lines = Self::validate_units(lines)?;
        Self::validate_line_sequenciality(lines)?;
        let lines = Self::validate_coordinate_system(lines)?;
        Self::validate_gracefull_exit(lines)?;
        Self::validate_winding(lines)?;
        Ok(())
    }

    /// The mill step of one line: none for headers, windings, turn-off, end
    /// and the coordinate system.
    pub fn line_to_mill_instruction(line: &ProgramLine) -> (r: Vec<MillInstruction>)
        requires
            !(instruction_of(*line) matches Some(Instruction::RotationSpeedAndWinding { .. })),
        ensures
            r@ == option_seq(mill_instruction_of(*line)),
    {
        match line {
            ProgramLine::UnitSystem(_) => Vec::new(),
            ProgramLine::Instruction { instruction, .. } => match instruction {
                Instruction::Winding(_) => Vec::new(),
                Instruction::RotationSpeed(speed) => {
                    let mut v = Vec::new();
                    v.push(MillInstruction::RotationSpeed(*speed));
                    v
                },
                Instruction::RotationSpeedAndWinding { .. } => Vec::new(),
                Instruction::MovementSpeed(speed) => {
                    let mut v = Vec::new();
                    v.push(MillInstruction::MovementSpeed(*speed));
                    v
                },
                Instruction::MoveFast(location) => {
                    let mut v = Vec::new();
                    v.push(MillInstruction::MoveFast(*location));
                    v
                },
                Instruction::MoveSlow(location) => {
                    let mut v = Vec::new();
                    v.push(MillInstruction::MoveSlow(*location));
                    v
                },
                Instruction::TurnOff => Vec::new(),
                Instruction::End => Vec::new(),
                Instruction::CoordinateSystemType(_) => Vec::new(),
            },
        }
    }

    pub fn lines_to_mill_instructions(lines: &[ProgramLine]) -> (r: Vec<MillInstruction>)
        requires
            !has_speed_and_winding(lines@),
        ensures
            r@ == mill_instructions(lines@),
    {
        let mut result: Vec<MillInstruction> = Vec::new();
        let mut i: usize = 0;
        assert(lines@.take(0) =~= Seq::<ProgramLine>::empty());
        while i < lines.len()
            invariant
                i <= lines.len(),
                !has_speed_and_winding(lines@),
                result@ == mill_instructions(lines@.take(i as int)),
            decreases lines.len() - i,
        {
            let line = &lines[i];
            assert(!(instruction_of(lines@[i as int]) matches Some(
                Instruction::RotationSpeedAndWinding { .. },
            )));
            let mut step = Self::line_to_mill_instruction(line);
            result.append(&mut step);
            assert(lines@.take(i + 1).drop_last() =~= lines@.take(i as int));
            i = i + 1;
        }
        assert(lines@.take(i as int) =~= lines@);
        result
    }

    /// A program from its lines: unless `lenient`, the lines must pass
    /// `validate_lines`; the instructions are the lines' mill steps.
    pub fn from_lines(lines: Vec<ProgramLine>, mill_shape: MillShape, lenient: bool) -> (r: Result<
        Program,
        ProgramLoadError,
    >)
        requires
            lenient || spec_validate_lines(lines@) is Ok ==> !has_speed_and_winding(lines@),
        ensures
            match r {
                Ok(p) => (lenient || spec_validate_lines(lines@) is Ok) && p.spec_instructions()
                    == mill_instructions(lines@) && p.spec_shape() == mill_shape,
                Err(e) => !lenient && spec_validate_lines(lines@) == Err::<(), ProgramLoadError>(
                    e,
                ),
            },
    {
        if !lenient {
            Self::validate_lines(lines.as_slice())?;
        }
        Ok(Program {
            instructions: Self::lines_to_mill_instructions(lines.as_slice()),
            mill_shape,
        })
    }

    /// The mill a program file's extension names.
    pub fn parse_program_extension(extension: &str) -> (r: Result<MillShape, ProgramLoadError>)
        requires
            extension@.len() > 0,
        ensures
            r == spec_program_extension(extension@),
    {
        let chars = chars_of(extension);
        let type_ = if chars[0] == 'k' {
            MillType::Ball
        } else if chars[0] == 'f' {
            MillType::Cylinder
        } else {
            return Err(ProgramLoadError::InvalidExtension);
        };
        let rest = slice_subrange(chars.as_slice(), 1, chars.len());
        assert(rest@ =~= extension@.drop_first());
        match parse_u32(rest) {
            Some(diameter) => Ok(MillShape { type_, diameter }),
            None => Err(ProgramLoadError::InvalidExtension),
        }
    }

    /// A program from the file's extension and text: the extension names the
    /// mill, the text is read line by line, then loaded as `from_lines` does.
    /// Reading a move with no location panics, and so does loading a rotation
    /// speed together with a winding into mill steps: such texts are left out.
    pub fn from_source(extension: &str, source: &str, lenient: bool) -> (r: Result<
        Program,
        ProgramLoadError,
    >)
        requires
            extension@.len() > 0,
            spec_program_extension(extension@) is Ok ==> !reaches_bare_move(source@),
            spec_program_extension(extension@) is Ok && source_parses(source@) && (lenient
                || spec_validate_lines(parsed_lines(source@)) is Ok) ==> !has_speed_and_winding(
                parsed_lines(source@),
            ),
        ensures
            match r {
                Ok(p) => spec_program_extension(extension@) == Ok::<
                    MillShape,
                    ProgramLoadError,
                >(p.spec_shape()) && source_parses(source@) && (lenient || spec_validate_lines(
                    parsed_lines(source@),
                ) is Ok) && p.spec_instructions() == mill_instructions(parsed_lines(source@)),
                Err(ProgramLoadError::InvalidExtension) => spec_program_extension(extension@)
                    is Err,
                Err(ProgramLoadError::ParseError(e)) => spec_program_extension(extension@) is Ok
                    && is_first_error(source@, e),
                Err(e) => spec_program_extension(extension@) is Ok && source_parses(source@)
                    && !lenient && spec_validate_lines(parsed_lines(source@)) == Err::<
                    (),
                    ProgramLoadError,
                >(e),
            },
    {
        let mill_shape = Self::parse_program_extension(extension)?;
        let parsed = match parse_source(source) {
            Ok(parsed) => parsed,
            Err(e) => {
                return Err(ProgramLoadError::ParseError(e));
            },
        };
        proof {
            lemma_validation_error(parsed@);
        }
        Self::from_lines(parsed, mill_shape, lenient)
    }
}

} // verus!
